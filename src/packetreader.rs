//! A cursor that decodes TFTP fields from a borrowed octet buffer.

use byteorder::{BigEndian, ByteOrder};
use vstd::prelude::*;
use vstd::utf8::{decode_utf8, valid_utf8};

verus! {

/// An error reading a field from a packet.
#[derive(Debug, Clone, Copy, PartialEq, Eq, Structural)]
pub enum Error {
    NotEnoughData,
    StringNotTerminated,
}

impl Error {
    /// A short description of the error.
    pub fn message(&self) -> (r: &'static str)
        ensures
            *self == Error::NotEnoughData ==> r@ == "not enough data"@,
            *self == Error::StringNotTerminated ==> r@ == "string not terminated with null byte"@,
    {
        match self {
            Error::NotEnoughData => "not enough data",
            Error::StringNotTerminated => "string not terminated with null byte",
        }
    }
}

pub type Result<T> = core::result::Result<T, Error>;

/// The number that two octets encode, most significant first.
pub open spec fn be_value(hi: u8, lo: u8) -> int {
    hi as int * 256 + lo as int
}

/// The index of the first zero octet of `b` at or after `from`, if any.
pub open spec fn find_nul(b: Seq<u8>, from: int) -> Option<int>
    decreases b.len() - from,
{
    if from < 0 || from >= b.len() {
        None
    } else if b[from] == 0 {
        Some(from)
    } else {
        find_nul(b, from + 1)
    }
}

/// A found zero octet lies in the buffer, at or after where the search began.
pub proof fn lemma_find_nul_bounds(b: Seq<u8>, from: int)
    ensures
        find_nul(b, from) matches Some(i) ==> from <= i < b.len() && b[i] == 0,
        find_nul(b, from) matches Some(i) ==> forall|k: int| from <= k < i ==> b[k] != 0,
        find_nul(b, from) is None ==> forall|k: int| 0 <= from <= k < b.len() ==> b[k] != 0,
    decreases b.len() - from,
{
    if 0 <= from < b.len() && b[from] != 0 {
        lemma_find_nul_bounds(b, from + 1);
    }
}

/// The first zero octet at or after `from` is the one at `i` when none lies
/// between them.
pub proof fn lemma_find_nul_at(b: Seq<u8>, from: int, i: int)
    requires
        0 <= from <= i < b.len(),
        b[i] == 0,
        forall|k: int| from <= k < i ==> b[k] != 0,
    ensures
        find_nul(b, from) == Some(i),
    decreases i - from,
{
    if from < i {
        lemma_find_nul_at(b, from + 1, i);
    }
}

/// What `String::from_utf8_lossy` makes of octets that are not valid UTF-8.
pub uninterp spec fn replaced_text(b: Seq<u8>) -> Seq<char>;

/// The text that octets spell: valid UTF-8 decoded as it is; otherwise with
/// invalid sequences replaced.
pub open spec fn text_of(b: Seq<u8>) -> Seq<char> {
    if valid_utf8(b) {
        decode_utf8(b)
    } else {
        replaced_text(b)
    }
}

/// Relies on `String::from_utf8_lossy`: valid UTF-8 is decoded as it is, and
/// each invalid sequence is replaced with U+FFFD REPLACEMENT CHARACTER.
#[verifier::external_body]
pub(crate) fn decode_lossy(b: &[u8]) -> (r: String)
    ensures
        valid_utf8(b@) ==> r@ == decode_utf8(b@),
        !valid_utf8(b@) ==> r@ == replaced_text(b@),
        !valid_utf8(b@) ==> r@.contains('\u{FFFD}'),
{
    String::from_utf8_lossy(b).into_owned()
}

/// Relies on byteorder's `BigEndian::read_u16`: the two octets at `at`, most
/// significant first.
#[verifier::external_body]
fn read_be_u16(buf: &[u8], at: usize) -> (r: u16)
    requires
        at + 2 <= buf@.len(),
    ensures
        r as int == be_value(buf@[at as int], buf@[at + 1]),
{
    BigEndian::read_u16(&buf[at..])
}

/// A monotonic cursor over a borrowed octet buffer.
#[derive(Debug)]
pub struct PacketReader<'a> {
    buf: &'a [u8],
    pos: usize,
}

impl<'a> PacketReader<'a> {
    #[verifier::type_invariant]
    spec fn inv(self) -> bool {
        self.pos <= self.buf@.len()
    }

    /// The whole buffer.
    pub closed spec fn data(&self) -> Seq<u8> {
        self.buf@
    }

    /// How many octets have been consumed.
    pub closed spec fn cursor(&self) -> int {
        self.pos as int
    }

    pub fn new(storage: &'a [u8]) -> (r: PacketReader<'a>)
        ensures
            r.data() == storage@,
            r.cursor() == 0,
    {
        PacketReader { buf: storage, pos: 0 }
    }

    pub fn len(&self) -> (r: usize)
        ensures
            r == self.data().len(),
    {
        self.buf.len()
    }

    pub fn pos(&self) -> (r: usize)
        ensures
            r == self.cursor(),
    {
        self.pos
    }

    pub fn rem(&self) -> (r: usize)
        ensures
            r == self.data().len() - self.cursor(),
            0 <= self.cursor() <= self.data().len(),
    {
        proof {
            use_type_invariant(self);
        }
        self.buf.len() - self.pos
    }

    /// Consumes two octets as a big-endian number.
    pub fn take_u16(&mut self) -> (r: Result<u16>)
        ensures
            final(self).data() == old(self).data(),
            old(self).cursor() + 2 <= old(self).data().len() ==> {
                &&& r matches Ok(v) && v as int == be_value(
                    old(self).data()[old(self).cursor()],
                    old(self).data()[old(self).cursor() + 1],
                )
                &&& final(self).cursor() == old(self).cursor() + 2
            },
            old(self).cursor() + 2 > old(self).data().len() ==> {
                &&& r == Err::<u16, Error>(Error::NotEnoughData)
                &&& final(self).cursor() == old(self).cursor()
            },
    {
        proof {
            use_type_invariant(&*self);
        }
        if self.buf.len() - self.pos >= 2 {
            let value = read_be_u16(self.buf, self.pos);
            self.pos = self.pos + 2;
            Ok(value)
        } else {
            Err(Error::NotEnoughData)
        }
    }

    /// Consumes a zero-terminated string, decoding the octets before the
    /// terminator as UTF-8 with replacement of invalid sequences.
    pub fn take_string(&mut self) -> (r: Result<String>)
        ensures
            final(self).data() == old(self).data(),
            match find_nul(old(self).data(), old(self).cursor()) {
                Some(i) => {
                    &&& r matches Ok(s) && s@ == text_of(
                        old(self).data().subrange(old(self).cursor(), i),
                    )
                    &&& final(self).cursor() == i + 1
                },
                None => {
                    &&& r == Err::<String, Error>(Error::StringNotTerminated)
                    &&& final(self).cursor() == old(self).cursor()
                },
            },
    {
        proof {
            use_type_invariant(&*self);
        }
        let mut i: usize = self.pos;
        while i < self.buf.len()
            invariant
                *self == *old(self),
                self.pos <= i <= self.buf@.len(),
                find_nul(self.buf@, self.pos as int) == find_nul(self.buf@, i as int),
            decreases self.buf@.len() - i,
        {
            if self.buf[i] == 0u8 {
                let string = decode_lossy(&self.buf[self.pos..i]);
                self.pos = i + 1;
                return Ok(string);
            }
            i = i + 1;
        }
        Err(Error::StringNotTerminated)
    }

    /// Consumes everything that is left.
    pub fn take_remaining(&mut self) -> (r: Result<&'a [u8]>)
        ensures
            final(self).data() == old(self).data(),
            r matches Ok(rest) && rest@ == old(self).data().subrange(
                old(self).cursor(),
                old(self).data().len() as int,
            ),
            final(self).cursor() == old(self).data().len(),
    {
        proof {
            use_type_invariant(&*self);
        }
        let rem = &self.buf[self.pos..self.buf.len()];
        self.pos = self.buf.len();
        Ok(rem)
    }
}

} // verus!
