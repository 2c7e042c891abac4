//! A cursor that encodes TFTP fields into a borrowed octet buffer.

use byteorder::{BigEndian, ByteOrder};
use vstd::prelude::*;
use vstd::string::is_ascii;
use vstd::utf8::{encode_utf8, is_ascii_chars};

verus! {

broadcast use vstd::string::group_string_axioms;

/// An error writing a field into a packet.
#[derive(Debug, Clone, Copy, PartialEq, Eq, Structural)]
pub enum Error {
    NotEnoughSpace,
    StringNotASCII,
    StringContainsNull,
}

impl Error {
    /// A short description of the error.
    pub fn message(&self) -> (r: &'static str)
        ensures
            *self == Error::NotEnoughSpace ==> r@ == "not enough space for packet data"@,
            *self == Error::StringNotASCII ==> r@ == "string is not ASCII"@,
            *self == Error::StringContainsNull ==> r@ == "string contains null byte"@,
    {
        match self {
            Error::NotEnoughSpace => "not enough space for packet data",
            Error::StringNotASCII => "string is not ASCII",
            Error::StringContainsNull => "string contains null byte",
        }
    }
}

pub type Result<T> = core::result::Result<T, Error>;

/// One field of a packet, as the writer puts it on the wire.
pub enum Field {
    /// A 16-bit number, big-endian.
    Number(u16),
    /// A string, followed by a zero terminator.
    Text(Seq<char>),
    /// Raw octets, with no terminator.
    Octets(Seq<u8>),
}

/// The two octets of `v`, most significant first.
pub open spec fn be_octets(v: u16) -> Seq<u8> {
    seq![(v / 256) as u8, (v % 256) as u8]
}

/// Whether the UTF-8 encoding of `s` holds a zero octet.
pub open spec fn has_nul(s: Seq<char>) -> bool {
    exists|i: int| 0 <= i < encode_utf8(s).len() && #[trigger] encode_utf8(s)[i] == 0
}

/// The octets that a field occupies on the wire.
pub open spec fn field_octets(f: Field) -> Seq<u8> {
    match f {
        Field::Number(v) => be_octets(v),
        Field::Text(s) => encode_utf8(s).push(0),
        Field::Octets(b) => b,
    }
}

/// Why a field cannot be written at `pos` into a buffer of `cap` octets, if
/// it cannot.
pub open spec fn field_fault(f: Field, pos: int, cap: int) -> Option<Error> {
    match f {
        Field::Number(_) => if cap - pos < 2 {
            Some(Error::NotEnoughSpace)
        } else {
            None
        },
        Field::Text(s) => if !is_ascii_chars(s) {
            Some(Error::StringNotASCII)
        } else if has_nul(s) {
            Some(Error::StringContainsNull)
        } else if pos + encode_utf8(s).len() >= cap {
            Some(Error::NotEnoughSpace)
        } else {
            None
        },
        Field::Octets(b) => if pos + b.len() > cap {
            Some(Error::NotEnoughSpace)
        } else {
            None
        },
    }
}

/// Writes a sequence of fields from `pos` on into a buffer of `cap` octets:
/// the octets written, or the fault of the first field that does not fit.
pub open spec fn emit(fields: Seq<Field>, pos: int, cap: int) -> Result<Seq<u8>>
    decreases fields.len(),
{
    if fields.len() == 0 {
        Ok(Seq::empty())
    } else {
        match field_fault(fields[0], pos, cap) {
            Some(e) => Err(e),
            None => {
                let first = field_octets(fields[0]);
                match emit(fields.drop_first(), pos + first.len(), cap) {
                    Ok(rest) => Ok(first + rest),
                    Err(e) => Err(e),
                }
            },
        }
    }
}

/// `buf` with `o` written over it from `at` on.
pub open spec fn overwrite(buf: Seq<u8>, at: int, o: Seq<u8>) -> Seq<u8> {
    buf.subrange(0, at) + o + buf.subrange(at + o.len(), buf.len() as int)
}

/// How one `put_*` call changes the buffer and the cursor: a field that fits
/// is written at the cursor, which moves past it; one that does not leaves
/// both untouched.
pub open spec fn put_outcome(
    before: Seq<u8>,
    pos: int,
    after: Seq<u8>,
    pos_after: int,
    f: Field,
    r: Result<()>,
) -> bool {
    &&& 0 <= pos <= before.len()
    &&& after.len() == before.len()
    &&& match field_fault(f, pos, before.len() as int) {
        Some(e) => r == Err::<(), Error>(e) && after == before && pos_after == pos,
        None => {
            &&& r == Ok::<(), Error>(())
            &&& after == overwrite(before, pos, field_octets(f))
            &&& pos_after == pos + field_octets(f).len()
        },
    }
}

/// Relies on byteorder's `BigEndian::write_u16`: writes `v` into the two
/// octets at `at`, most significant first, and nothing else.
#[verifier::external_body]
fn write_be_u16(buf: &mut [u8], at: usize, v: u16)
    requires
        at + 2 <= old(buf)@.len(),
    ensures
        final(buf)@ == old(buf)@.update(at as int, (v / 256) as u8).update(at + 1, (v % 256) as u8),
    no_unwind
{
    BigEndian::write_u16(&mut buf[at..], v)
}

/// A monotonic cursor into a borrowed, mutable octet buffer.
#[derive(Debug)]
pub struct PacketWriter<'a> {
    buf: &'a mut [u8],
    pos: usize,
}

impl<'a> PacketWriter<'a> {
    #[verifier::type_invariant]
    spec fn inv(self) -> bool {
        self.pos <= self.buf@.len()
    }

    /// The whole buffer.
    pub closed spec fn data(&self) -> Seq<u8> {
        self.buf@
    }

    /// The borrowed buffer.
    pub closed spec fn storage(&self) -> &'a mut [u8] {
        self.buf
    }

    /// How many octets have been written.
    pub closed spec fn cursor(&self) -> int {
        self.pos as int
    }

    pub fn new(storage: &'a mut [u8]) -> (r: Self)
        ensures
            r.data() == old(storage)@,
            r.cursor() == 0,
            final(r.storage())@ == final(storage)@,
    {
        PacketWriter { buf: storage, pos: 0 }
    }

    pub fn len(&self) -> (r: usize)
        ensures
            r == self.data().len(),
    {
        self.buf.len()
    }

    pub fn pos(&self) -> (r: usize)
        ensures
            r == self.cursor(),
    {
        self.pos
    }

    pub fn rem(&self) -> (r: usize)
        ensures
            r == self.data().len() - self.cursor(),
            0 <= self.cursor() <= self.data().len(),
    {
        proof {
            use_type_invariant(self);
        }
        self.buf.len() - self.pos
    }

    /// Writes `value` as two big-endian octets.
    pub fn put_u16(&mut self, value: u16) -> (r: Result<()>)
        ensures
            put_outcome(
                old(self).data(),
                old(self).cursor(),
                final(self).data(),
                final(self).cursor(),
                Field::Number(value),
                r,
            ),
            final(final(self).storage())@ == final(old(self).storage())@,
    {
        proof {
            use_type_invariant(&*self);
        }
        if self.buf.len() - self.pos >= 2 {
            write_be_u16(self.buf, self.pos, value);
            self.pos = self.pos + 2;
            proof {
                assert(self.buf@ =~= overwrite(old(self).buf@, old(self).pos as int, be_octets(value)));
            }
            Ok(())
        } else {
            Err(Error::NotEnoughSpace)
        }
    }

    /// Writes an ASCII string without zero octets, then a zero terminator.
    pub fn put_string(&mut self, value: &str) -> (r: Result<()>)
        ensures
            put_outcome(
                old(self).data(),
                old(self).cursor(),
                final(self).data(),
                final(self).cursor(),
                Field::Text(value@),
                r,
            ),
            final(final(self).storage())@ == final(old(self).storage())@,
            is_ascii(value) && !has_nul(value@) && old(self).data().len() - old(self).cursor()
                <= value@.len() ==> r == Err::<(), Error>(Error::NotEnoughSpace),
    {
        proof {
            use_type_invariant(&*self);
        }
        if !value.is_ascii() {
            return Err(Error::StringNotASCII);
        }
        let bytes = value.as_bytes();
        proof {
            vstd::utf8::is_ascii_chars_encode_utf8(value@);
        }
        let mut k: usize = 0;
        while k < bytes.len()
            invariant
                *self == *old(self),
                self.pos <= self.buf@.len(),
                is_ascii_chars(value@),
                bytes@ == encode_utf8(value@),
                k <= bytes@.len(),
                forall|j: int| 0 <= j < k ==> bytes@[j] != 0,
            decreases bytes@.len() - k,
        {
            if bytes[k] == 0u8 {
                proof {
                    assert(encode_utf8(value@)[k as int] == 0);
                }
                return Err(Error::StringContainsNull);
            }
            k = k + 1;
        }
        if bytes.len() >= self.buf.len() - self.pos {
            return Err(Error::NotEnoughSpace);
        }
        let start = self.pos;
        let end: usize = start + bytes.len();
        let mut k: usize = 0;
        while k < bytes.len()
            invariant
                start == old(self).pos,
                self.pos == start,
                final(self.buf)@ == final(old(self).buf)@,
                end == start + bytes@.len(),
                self.buf@.len() == old(self).buf@.len(),
                bytes@ == encode_utf8(value@),
                k <= bytes@.len(),
                start + bytes@.len() < self.buf@.len(),
                self.buf@ == overwrite(old(self).buf@, start as int, bytes@.subrange(0, k as int)),
            decreases bytes@.len() - k,
        {
            self.buf[start + k] = bytes[k];
            k = k + 1;
            proof {
                assert(self.buf@ =~= overwrite(
                    old(self).buf@,
                    start as int,
                    bytes@.subrange(0, k as int),
                ));
            }
        }
        self.buf[start + k] = 0u8;
        self.pos = start + k + 1;
        proof {
            assert(self.buf@ =~= overwrite(old(self).buf@, start as int, encode_utf8(value@).push(0)));
        }
        Ok(())
    }

    /// Writes `bytes` as they are, with no terminator.
    pub fn put_bytes(&mut self, bytes: &[u8]) -> (r: Result<()>)
        ensures
            put_outcome(
                old(self).data(),
                old(self).cursor(),
                final(self).data(),
                final(self).cursor(),
                Field::Octets(bytes@),
                r,
            ),
            final(final(self).storage())@ == final(old(self).storage())@,
    {
        proof {
            use_type_invariant(&*self);
        }
        if bytes.len() > self.buf.len() - self.pos {
            return Err(Error::NotEnoughSpace);
        }
        let start = self.pos;
        let end: usize = start + bytes.len();
        let mut k: usize = 0;
        while k < bytes.len()
            invariant
                start == old(self).pos,
                self.pos == start,
                final(self.buf)@ == final(old(self).buf)@,
                end == start + bytes@.len(),
                self.buf@.len() == old(self).buf@.len(),
                k <= bytes@.len(),
                start + bytes@.len() <= self.buf@.len(),
                self.buf@ == overwrite(old(self).buf@, start as int, bytes@.subrange(0, k as int)),
            decreases bytes@.len() - k,
        {
            self.buf[start + k] = bytes[k];
            k = k + 1;
            proof {
                assert(self.buf@ =~= overwrite(
                    old(self).buf@,
                    start as int,
                    bytes@.subrange(0, k as int),
                ));
            }
        }
        self.pos = start + k;
        proof {
            assert(bytes@.subrange(0, k as int) =~= bytes@);
        }
        Ok(())
    }

    /// Gives back the buffer and how many octets were written into it.
    pub fn get(self) -> (r: (&'a mut [u8], usize))
        ensures
            r.0@ == self.data(),
            final(r.0)@ == final(self.storage())@,
            r.1 == self.cursor(),
    {
        let PacketWriter { buf, pos } = self;
        (buf, pos)
    }
}

} // verus!

verus! {

/// How a run of `put_*` calls changes the buffer and the cursor: when every
/// field fits, the octets are written at the cursor, which moves past them;
/// otherwise the call reports the fault of the first field that does not fit.
pub open spec fn puts_outcome(
    before: Seq<u8>,
    pos: int,
    after: Seq<u8>,
    pos_after: int,
    fields: Seq<Field>,
    r: Result<()>,
) -> bool {
    &&& after.len() == before.len()
    &&& match emit(fields, pos, before.len() as int) {
        Ok(o) => {
            &&& r == Ok::<(), Error>(())
            &&& after == overwrite(before, pos, o)
            &&& pos_after == pos + o.len()
        },
        Err(e) => r == Err::<(), Error>(e),
    }
}

/// Emitting two runs of fields one after the other is emitting their
/// concatenation.
pub proof fn lemma_emit_concat(f1: Seq<Field>, f2: Seq<Field>, pos: int, cap: int)
    ensures
        emit(f1 + f2, pos, cap) == match emit(f1, pos, cap) {
            Ok(o1) => match emit(f2, pos + o1.len(), cap) {
                Ok(o2) => Ok(o1 + o2),
                Err(e) => Err(e),
            },
            Err(e) => Err(e),
        },
    decreases f1.len(),
{
    if f1.len() == 0 {
        assert(f1 + f2 =~= f2);
        match emit(f2, pos, cap) {
            Ok(o2) => {
                assert(Seq::<u8>::empty() + o2 =~= o2);
            },
            Err(_) => {},
        }
    } else {
        assert((f1 + f2).drop_first() =~= f1.drop_first() + f2);
        assert((f1 + f2)[0] == f1[0]);
        let first = field_octets(f1[0]);
        lemma_emit_concat(f1.drop_first(), f2, pos + first.len(), cap);
        match emit(f1.drop_first(), pos + first.len(), cap) {
            Ok(r1) => match emit(f2, pos + first.len() + r1.len(), cap) {
                Ok(o2) => {
                    assert(first + (r1 + o2) =~= (first + r1) + o2);
                },
                Err(_) => {},
            },
            Err(_) => {},
        }
    }
}

/// What is emitted fits in the buffer.
pub proof fn lemma_emit_fits(fields: Seq<Field>, pos: int, cap: int)
    requires
        pos <= cap,
    ensures
        emit(fields, pos, cap) matches Ok(o) ==> pos + o.len() <= cap,
    decreases fields.len(),
{
    if fields.len() > 0 && field_fault(fields[0], pos, cap) is None {
        match fields[0] {
            Field::Text(s) => {
                assert(field_octets(fields[0]).len() == encode_utf8(s).len() + 1);
            },
            _ => {},
        }
        lemma_emit_fits(fields.drop_first(), pos + field_octets(fields[0]).len(), cap);
    }
}

/// Writing `o1` and then `o2` right after it is writing `o1 + o2`.
pub proof fn lemma_overwrite_twice(buf: Seq<u8>, at: int, o1: Seq<u8>, o2: Seq<u8>)
    requires
        0 <= at,
        at + o1.len() + o2.len() <= buf.len(),
    ensures
        overwrite(overwrite(buf, at, o1), at + o1.len(), o2) == overwrite(buf, at, o1 + o2),
{
    assert(overwrite(overwrite(buf, at, o1), at + o1.len(), o2) =~= overwrite(buf, at, o1 + o2));
}

/// A single field emits as `put_outcome` says.
pub proof fn lemma_emit_one(f: Field, pos: int, cap: int)
    ensures
        emit(seq![f], pos, cap) == match field_fault(f, pos, cap) {
            Some(e) => Err(e),
            None => Ok(field_octets(f)),
        },
{
    reveal_with_fuel(emit, 2);
    assert(seq![f].drop_first() =~= Seq::<Field>::empty());
    assert(field_octets(f) + Seq::<u8>::empty() =~= field_octets(f));
}

} // verus!

verus! {

/// The octets of a run of fields, one after the other.
pub open spec fn fields_octets(fields: Seq<Field>) -> Seq<u8>
    decreases fields.len(),
{
    if fields.len() == 0 {
        Seq::empty()
    } else {
        field_octets(fields[0]) + fields_octets(fields.drop_first())
    }
}

/// What `emit` produces is the fields' octets, one after the other, and
/// every string in them is ASCII without zero octets.
pub proof fn lemma_emit_octets(fields: Seq<Field>, pos: int, cap: int)
    ensures
        emit(fields, pos, cap) matches Ok(b) ==> b == fields_octets(fields),
        emit(fields, pos, cap) is Ok ==> forall|i: int|
            0 <= i < fields.len() ==> (#[trigger] fields[i] matches Field::Text(s) ==> is_ascii_chars(s)
                && !has_nul(s)),
    decreases fields.len(),
{
    if fields.len() > 0 {
        lemma_emit_octets(fields.drop_first(), pos + field_octets(fields[0]).len(), cap);
        if emit(fields, pos, cap) is Ok {
            assert forall|i: int|
                0 <= i < fields.len() implies (#[trigger] fields[i] matches Field::Text(s)
                ==> is_ascii_chars(s) && !has_nul(s)) by {
                if i > 0 {
                    assert(fields[i] == fields.drop_first()[i - 1]);
                }
            }
        }
    }
}

/// The octets of two runs of fields are those of the first, then those of
/// the second.
pub proof fn lemma_fields_octets_concat(f1: Seq<Field>, f2: Seq<Field>)
    ensures
        fields_octets(f1 + f2) == fields_octets(f1) + fields_octets(f2),
    decreases f1.len(),
{
    if f1.len() == 0 {
        assert(f1 + f2 =~= f2);
        assert(Seq::<u8>::empty() + fields_octets(f2) =~= fields_octets(f2));
    } else {
        assert((f1 + f2).drop_first() =~= f1.drop_first() + f2);
        lemma_fields_octets_concat(f1.drop_first(), f2);
        assert(field_octets(f1[0]) + (fields_octets(f1.drop_first()) + fields_octets(f2))
            =~= field_octets(f1[0]) + fields_octets(f1.drop_first()) + fields_octets(f2));
    }
}

} // verus!
