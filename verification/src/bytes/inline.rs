//! A byte string short enough to be held in place. Its first byte holds a
//! tag bit, which is set, below the length.

use vstd::prelude::*;

verus! {

/// How many bytes fit in place.
pub const CAPACITY: usize = 23;

#[derive(Clone, Copy)]
pub struct Inline {
    tag: u8,
    bytes: [u8; 23],
}

/// The first byte of a string held in place: the length above a set tag bit.
#[derive(Clone, Copy, Debug, PartialEq, Eq, Structural)]
pub struct Tag(pub u8);

impl Tag {
    /// The tag of a string of `len` bytes held in place.
    pub fn from_len(len: usize) -> (t: Tag)
        requires
            len <= 127,
        ensures
            t.0 == len * 2 + 1,
    {
        Tag((len as u8) * 2 + 1)
    }

    /// The length of the string held in place, or `None` where the tag bit
    /// is not set and the string lives elsewhere.
    pub fn stack_len(self) -> (r: Option<usize>)
        ensures
            r == if self.0 % 2 == 1 {
                Some((self.0 / 2) as usize)
            } else {
                None::<usize>
            },
    {
        if self.0 % 2 == 1 {
            Some((self.0 / 2) as usize)
        } else {
            None
        }
    }
}

impl View for Inline {
    type V = Seq<u8>;

    /// The bytes held.
    closed spec fn view(&self) -> Seq<u8> {
        self.bytes@.take((self.tag / 2) as int)
    }
}

impl Inline {
    #[verifier::type_invariant]
    spec fn inv(self) -> bool {
        self.tag % 2 == 1 && self.tag / 2 <= CAPACITY
    }

    /// Hold the bytes of `value` in place, if they fit.
    pub fn new(value: &[u8]) -> (r: Option<Inline>)
        ensures
            match r {
                Some(s) => value@.len() <= CAPACITY && s@ == value@,
                None => value@.len() > CAPACITY,
            },
    {
        let len: usize = value.len();
        if len > CAPACITY {
            return None;
        }
        let mut bytes: [u8; 23] = [0u8;23];
        let mut i: usize = 0;
        while i < len
            invariant
                0 <= i <= len <= CAPACITY,
                len == value@.len(),
                forall|k: int| 0 <= k < i ==> bytes@[k] == value@[k],
            decreases len - i,
        {
            bytes[i] = value[i];
            i = i + 1;
        }
        let s = Inline { tag: Tag::from_len(len).0, bytes };
        proof {
            assert(s@ =~= value@);
        }
        Some(s)
    }

    /// Whether the tag bit is set: it always is for a string held in place.
    pub fn tag(&self) -> (b: bool)
        ensures
            b,
    {
        proof {
            use_type_invariant(self);
        }
        self.tag % 2 == 1
    }

    /// The number of bytes held.
    pub fn len(&self) -> (n: usize)
        ensures
            n == self@.len(),
            n <= CAPACITY,
    {
        proof {
            use_type_invariant(self);
        }
        (self.tag / 2) as usize
    }

    /// The number of bytes that could still be held.
    pub fn uninit_capacity(&self) -> (n: usize)
        ensures
            n == CAPACITY - self@.len(),
    {
        CAPACITY - self.len()
    }

    /// The bytes held.
    pub fn to_vec(&self) -> (r: Vec<u8>)
        ensures
            r@ == self@,
    {
        proof {
            use_type_invariant(self);
        }
        let n: usize = self.len();
        let mut out: Vec<u8> = Vec::new();
        let mut i: usize = 0;
        while i < n
            invariant
                0 <= i <= n <= CAPACITY,
                n == self@.len(),
                n == self.tag / 2,
                out@ == self@.take(i as int),
            decreases n - i,
        {
            out.push(self.bytes[i]);
            proof {
                assert(self@[i as int] == self.bytes@[i as int]);
                assert(out@ =~= self@.take(i + 1));
            }
            i = i + 1;
        }
        proof {
            assert(self@.take(n as int) =~= self@);
        }
        out
    }
}

} // verus!
