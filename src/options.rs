//! TFTP transfer options (RFC 2347, 2348, 2349, 7440): parsing the
//! null-delimited name/value area of a request and writing it back.


use crate::packet::Error;
use crate::packetreader::{
    decode_lossy, find_nul, lemma_find_nul_at, lemma_find_nul_bounds, text_of, PacketReader,
};
use crate::packetwriter::{
    emit, field_octets, fields_octets, has_nul, lemma_emit_concat, lemma_emit_fits, lemma_emit_octets,
    lemma_emit_one, lemma_fields_octets_concat, lemma_overwrite_twice, overwrite, Field,
    PacketWriter,
};

use vstd::prelude::*;
use vstd::string::*;
use vstd::utf8::encode_utf8;

verus! {

broadcast use vstd::string::group_string_axioms;

// ---------------------------------------------------------------------------
// Text: case-insensitive names, decimal numbers.
// ---------------------------------------------------------------------------

pub open spec fn is_ascii_upper(c: char) -> bool {
    'A' <= c <= 'Z'
}

/// Two characters that are equal once ASCII letters are folded to one case.
pub open spec fn same_letter(a: char, b: char) -> bool {
    ||| a == b
    ||| is_ascii_upper(a) && a as u32 + 32 == b as u32
    ||| is_ascii_upper(b) && b as u32 + 32 == a as u32
}

/// Two strings that are equal once ASCII letters are folded to one case.
pub open spec fn same_ignoring_case(a: Seq<char>, b: Seq<char>) -> bool {
    &&& a.len() == b.len()
    &&& forall|i: int| 0 <= i < a.len() ==> same_letter(#[trigger] a[i], b[i])
}

/// Compares two strings, ignoring the case of ASCII letters.
pub fn eq_ignore_ascii_case(a: &str, b: &str) -> (r: bool)
    ensures
        r == same_ignoring_case(a@, b@),
{
    let n = a.unicode_len();
    if n != b.unicode_len() {
        return false;
    }
    let mut i: usize = 0;
    while i < n
        invariant
            n == a@.len(),
            n == b@.len(),
            i <= n,
            forall|k: int| 0 <= k < i ==> same_letter(#[trigger] a@[k], b@[k]),
        decreases n - i,
    {
        let x = a.get_char(i);
        let y = b.get_char(i);
        let same = x == y || ('A' <= x && x <= 'Z' && x as u32 + 32 == y as u32) || (
        'A' <= y && y <= 'Z' && y as u32 + 32 == x as u32);
        if !same {
            return false;
        }
        i = i + 1;
    }
    true
}

/// Whether `c` lowercases to the single character `l`, when `l` is a
/// lowercase ASCII letter: `c` is `l` itself, its ASCII capital, or the
/// Kelvin sign, which lowercases to `k`.
pub open spec fn lowers_to(c: char, l: char) -> bool {
    ||| c == l
    ||| is_ascii_upper(c) && c as u32 + 32 == l as u32
    ||| c == '\u{212A}' && l == 'k'
}

/// Whether the lowercase form of `name` is `lower`, an option token in
/// lowercase ASCII letters.
pub open spec fn lowercases_to(name: Seq<char>, lower: Seq<char>) -> bool {
    &&& name.len() == lower.len()
    &&& forall|i: int| 0 <= i < name.len() ==> lowers_to(#[trigger] name[i], lower[i])
}

/// Whether the lowercase form of `name` is `lower`, a token in lowercase
/// ASCII letters.
pub fn lowercases_to_token(name: &str, lower: &str) -> (r: bool)
    ensures
        r == lowercases_to(name@, lower@),
{
    let n = name.unicode_len();
    if n != lower.unicode_len() {
        return false;
    }
    let mut i: usize = 0;
    while i < n
        invariant
            n == name@.len(),
            n == lower@.len(),
            i <= n,
            forall|k: int| 0 <= k < i ==> lowers_to(#[trigger] name@[k], lower@[k]),
        decreases n - i,
    {
        let c = name.get_char(i);
        let l = lower.get_char(i);
        let same = c == l || ('A' <= c && c <= 'Z' && c as u32 + 32 == l as u32) || (c
            == '\u{212A}' && l == 'k');
        if !same {
            return false;
        }
        i = i + 1;
    }
    true
}

/// Why a decimal number could not be read.
#[derive(Debug, Clone, Copy, PartialEq, Eq, Structural)]
pub enum NumberError {
    /// There were no characters at all.
    Empty,
    /// A character is not a decimal digit.
    InvalidDigit,
    /// The number does not fit the target type.
    TooLarge,
}

pub open spec fn number_error_text(e: NumberError) -> Seq<char> {
    match e {
        NumberError::Empty => "cannot parse integer from empty string"@,
        NumberError::InvalidDigit => "invalid digit found in string"@,
        NumberError::TooLarge => "number too large to fit in target type"@,
    }
}

impl NumberError {
    pub fn message(&self) -> (r: &'static str)
        ensures
            r@ == number_error_text(*self),
    {
        match self {
            NumberError::Empty => "cannot parse integer from empty string",
            NumberError::InvalidDigit => "invalid digit found in string",
            NumberError::TooLarge => "number too large to fit in target type",
        }
    }
}

pub open spec fn is_digit(c: u8) -> bool {
    48 <= c <= 57
}

/// Reads digits of `s` from `i` on, onto the value `acc` read so far: each
/// character must be a digit, and each prefix must stay within `max`.
pub open spec fn scan_digits(s: Seq<u8>, i: int, acc: int, max: int) -> Result<int, NumberError>
    decreases s.len() - i,
{
    if i < 0 || i >= s.len() {
        Ok(acc)
    } else if !is_digit(s[i]) {
        Err(NumberError::InvalidDigit)
    } else if acc * 10 + (s[i] - 48) > max {
        Err(NumberError::TooLarge)
    } else {
        scan_digits(s, i + 1, acc * 10 + (s[i] - 48), max)
    }
}

/// The value of the decimal number that `s` spells, at most `max`: an
/// optional `+` and then digits only.
pub open spec fn decimal_value(s: Seq<u8>, max: int) -> Result<int, NumberError> {
    if s.len() == 0 {
        Err(NumberError::Empty)
    } else if s.len() > 1 && s[0] == 43 {
        scan_digits(s, 1, 0, max)
    } else {
        scan_digits(s, 0, 0, max)
    }
}

/// A number read within `max` is at most `max`.
pub proof fn lemma_scan_bound(s: Seq<u8>, i: int, acc: int, max: int)
    requires
        0 <= acc <= max,
    ensures
        scan_digits(s, i, acc, max) matches Ok(v) ==> 0 <= v <= max,
    decreases s.len() - i,
{
    if 0 <= i < s.len() && is_digit(s[i]) && acc * 10 + (s[i] - 48) <= max {
        lemma_scan_bound(s, i + 1, acc * 10 + (s[i] - 48), max);
    }
}

/// A number read within `max` is at most `max`.
pub proof fn lemma_decimal_bound(s: Seq<u8>, max: int)
    requires
        0 <= max,
    ensures
        decimal_value(s, max) matches Ok(v) ==> 0 <= v <= max,
{
    lemma_scan_bound(s, 0, 0, max);
    lemma_scan_bound(s, 1, 0, max);
}

/// Reads the decimal number that `s` spells, if it is at most `max`.
fn parse_decimal(s: &[u8], max: u64) -> (r: Result<u64, NumberError>)
    ensures
        match decimal_value(s@, max as int) {
            Ok(v) => r == Ok::<u64, NumberError>(v as u64),
            Err(e) => r == Err::<u64, NumberError>(e),
        },
{
    if s.len() == 0 {
        return Err(NumberError::Empty);
    }
    let mut i: usize = if s.len() > 1 && s[0] == 43u8 {
        1
    } else {
        0
    };
    let mut acc: u64 = 0;
    while i < s.len()
        invariant
            i <= s@.len(),
            acc <= max,
            decimal_value(s@, max as int) == scan_digits(s@, i as int, acc as int, max as int),
        decreases s@.len() - i,
    {
        let c = s[i];
        if c < 48u8 || c > 57u8 {
            return Err(NumberError::InvalidDigit);
        }
        let d = (c - 48u8) as u64;
        if d > max || acc > (max - d) / 10 {
            proof {
                if d <= max {
                    assert(acc * 10 + d > max) by (nonlinear_arith)
                        requires
                            acc > (max - d) / 10,
                            d <= max,
                    ;
                }
            }
            return Err(NumberError::TooLarge);
        }
        proof {
            assert(acc * 10 + d <= max) by (nonlinear_arith)
                requires
                    acc <= (max - d) / 10,
                    d <= max,
            ;
        }
        acc = acc * 10 + d;
        i = i + 1;
    }
    Ok(acc)
}

/// The character of a decimal digit.
pub open spec fn digit_char(d: int) -> char {
    ((d + 48) as u8) as char
}

/// The decimal representation of `n`, without leading zeros.
pub open spec fn decimal_chars(n: nat) -> Seq<char>
    decreases n,
{
    if n < 10 {
        seq![digit_char(n as int)]
    } else {
        decimal_chars(n / 10).push(digit_char((n % 10) as int))
    }
}

/// Relies on the `Display` of `u64` (through `to_string`): the number in
/// decimal, without sign or leading zeros.
#[verifier::external_body]
fn decimal_string(n: u64) -> (r: String)
    ensures
        r@ == decimal_chars(n as nat),
{
    n.to_string()
}

/// What the `Debug` formatting of a `str` makes of it.
pub uninterp spec fn debug_text(s: Seq<char>) -> Seq<char>;

/// Relies on the `Debug` formatting of `str`: the string quoted and escaped.
#[verifier::external_body]
fn debug_string(s: &str) -> (r: String)
    ensures
        r@ == debug_text(s@),
{
    format!("{:?}", s)
}

// ---------------------------------------------------------------------------
// Splitting the option area into zero-terminated strings.
// ---------------------------------------------------------------------------

/// One null-delimited string of an option area.
#[derive(Debug, PartialEq)]
pub enum OptionString<'a> {
    Terminated(&'a [u8]),
    Unterminated(&'a [u8]),
    End,
}

/// Splits a buffer into zero-terminated strings, one at a time.
#[derive(Debug)]
pub struct OptionStringIter<'a> {
    buf: &'a [u8],
    pos: usize,
}

impl<'a> OptionStringIter<'a> {
    #[verifier::type_invariant]
    spec fn inv(self) -> bool {
        self.pos <= self.buf@.len()
    }

    /// The whole buffer.
    pub closed spec fn data(&self) -> Seq<u8> {
        self.buf@
    }

    /// Where the next string starts.
    pub closed spec fn cursor(&self) -> int {
        self.pos as int
    }

    pub fn new(buf: &'a [u8]) -> (r: OptionStringIter<'a>)
        ensures
            r.data() == buf@,
            r.cursor() == 0,
    {
        OptionStringIter { buf: buf, pos: 0 }
    }

    /// The next string: up to the next zero octet, which is skipped; or the
    /// rest of the buffer when no zero octet is left; or nothing at the end.
    pub fn next(&mut self) -> (r: OptionString<'a>)
        ensures
            final(self).data() == old(self).data(),
            ({
                let b = old(self).data();
                let p = old(self).cursor();
                match find_nul(b, p) {
                    Some(i) => {
                        &&& r matches OptionString::Terminated(s) && s@ == b.subrange(p, i)
                        &&& final(self).cursor() == i + 1
                    },
                    None => if p < b.len() {
                        &&& r matches OptionString::Unterminated(s) && s@ == b.subrange(
                            p,
                            b.len() as int,
                        )
                        &&& final(self).cursor() == b.len()
                    } else {
                        &&& r matches OptionString::End
                        &&& final(self).cursor() == p
                    },
                }
            }),
    {
        proof {
            use_type_invariant(&*self);
        }
        let mut index: usize = self.pos;
        while index < self.buf.len()
            invariant
                *self == *old(self),
                self.pos <= index <= self.buf@.len(),
                find_nul(self.buf@, self.pos as int) == find_nul(self.buf@, index as int),
            decreases self.buf@.len() - index,
        {
            if self.buf[index] == 0u8 {
                let cstr = &self.buf[self.pos..index];
                self.pos = index + 1;
                return OptionString::Terminated(cstr);
            }
            index = index + 1;
        }
        if self.buf.len() > self.pos {
            let cstr = &self.buf[self.pos..self.buf.len()];
            self.pos = self.buf.len();
            OptionString::Unterminated(cstr)
        } else {
            OptionString::End
        }
    }
}

} // verus!

verus! {

// ---------------------------------------------------------------------------
// The options themselves.
// ---------------------------------------------------------------------------

/// TFTP transfer options. Defined in RFC 2347.
#[derive(Debug, Clone, Copy, PartialEq, Eq, Structural)]
pub struct Options {
    /// Block size; 8-65464 inclusive. Defined in RFC 2348.
    pub blksize: Option<u16>,
    /// Time-out; 1-255 seconds, inclusive. Defined in RFC 2349.
    pub timeout: Option<u8>,
    /// Transfer size; 0 for query. Defined in RFC 2349.
    pub tsize: Option<u64>,
    /// Window size; 1-65535. Defined in RFC 7440.
    pub windowsize: Option<u16>,
}

/// Options with no option set.
pub open spec fn no_options() -> Options {
    Options { blksize: None, timeout: None, tsize: None, windowsize: None }
}

pub open spec fn invalid_value_text(option: Seq<char>, value: Seq<char>, e: NumberError) -> Seq<
    char,
> {
    "Invalid "@ + option + " value "@ + debug_text(value) + ": "@ + number_error_text(e)
}

/// The value of option `option` given as the string `value`, at most `max`,
/// or the message that rejects it.
pub open spec fn option_value(option: Seq<char>, value: Seq<char>, max: int) -> Result<
    int,
    Seq<char>,
> {
    match decimal_value(encode_utf8(value), max) {
        Ok(v) => Ok(v),
        Err(e) => Err(invalid_value_text(option, value, e)),
    }
}

/// `o` with the option `name` set to `value`, names compared by their
/// lowercase form; an unrecognised name leaves
/// `o` as it is.
pub open spec fn with_option(o: Options, name: Seq<char>, value: Seq<char>) -> Result<
    Options,
    Seq<char>,
> {
    if lowercases_to(name, "blksize"@) {
        match option_value("blksize"@, value, u16::MAX as int) {
            Ok(v) => Ok(Options { blksize: Some(v as u16), ..o }),
            Err(t) => Err(t),
        }
    } else if lowercases_to(name, "timeout"@) {
        match option_value("timeout"@, value, u8::MAX as int) {
            Ok(v) => Ok(Options { timeout: Some(v as u8), ..o }),
            Err(t) => Err(t),
        }
    } else if lowercases_to(name, "tsize"@) {
        match option_value("tsize"@, value, u64::MAX as int) {
            Ok(v) => Ok(Options { tsize: Some(v as u64), ..o }),
            Err(t) => Err(t),
        }
    } else if lowercases_to(name, "windowsize"@) {
        match option_value("windowsize"@, value, u16::MAX as int) {
            Ok(v) => Ok(Options { windowsize: Some(v as u16), ..o }),
            Err(t) => Err(t),
        }
    } else {
        Ok(o)
    }
}

pub open spec fn unterminated_name_text(name: Seq<char>) -> Seq<char> {
    "Option "@ + name + " is unterminated"@
}

pub open spec fn unterminated_value_text(name: Seq<char>, value: Seq<char>) -> Seq<char> {
    "Option "@ + name + " has unterminated value "@ + value
}

pub open spec fn missing_value_text(name: Seq<char>) -> Seq<char> {
    "Option "@ + name + " has no corresponding value"@
}

/// The options that the option area `b` sets from `pos` on, applied onto
/// `acc`, or the message of the first fault found.
pub open spec fn options_from(b: Seq<u8>, pos: int, acc: Options) -> Result<Options, Seq<char>>
    decreases b.len() - pos,
{
    if pos < 0 || pos >= b.len() {
        Ok(acc)
    } else {
        match find_nul(b, pos) {
            None => Err(unterminated_name_text(text_of(b.subrange(pos, b.len() as int)))),
            Some(i) => if !(pos <= i < b.len()) {
                Ok(acc)
            } else {
                let name = text_of(b.subrange(pos, i));
                let vpos = i + 1;
                if vpos >= b.len() {
                    Err(missing_value_text(name))
                } else {
                    match find_nul(b, vpos) {
                        None => Err(
                            unterminated_value_text(
                                name,
                                text_of(b.subrange(vpos, b.len() as int)),
                            ),
                        ),
                        Some(j) => if !(vpos <= j < b.len()) {
                            Ok(acc)
                        } else {
                            match with_option(acc, name, text_of(b.subrange(vpos, j))) {
                                Ok(o) => options_from(b, j + 1, o),
                                Err(t) => Err(t),
                            }
                        },
                    }
                }
            },
        }
    }
}

/// The options that an option area sets, or the message that rejects it.
pub open spec fn options_of(b: Seq<u8>) -> Result<Options, Seq<char>> {
    options_from(b, 0, no_options())
}

/// The two fields that carry one option.
pub open spec fn option_pair(name: Seq<char>, v: nat) -> Seq<Field> {
    seq![Field::Text(name), Field::Text(decimal_chars(v))]
}

/// The fields that carry the options that are set, in the canonical order
/// blksize, timeout, tsize, windowsize.
pub open spec fn option_fields(o: Options) -> Seq<Field> {
    (match o.blksize {
        Some(v) => option_pair("blksize"@, v as nat),
        None => Seq::empty(),
    }) + (match o.timeout {
        Some(v) => option_pair("timeout"@, v as nat),
        None => Seq::empty(),
    }) + (match o.tsize {
        Some(v) => option_pair("tsize"@, v as nat),
        None => Seq::empty(),
    }) + (match o.windowsize {
        Some(v) => option_pair("windowsize"@, v as nat),
        None => Seq::empty(),
    })
}

/// How writing `fields` changes a writer, with a write fault reported as a
/// packet error.
pub open spec fn wrote_fields(
    before: &PacketWriter,
    after: &PacketWriter,
    fields: Seq<Field>,
    r: crate::packet::Result<()>,
) -> bool {
    &&& after.data().len() == before.data().len()
    &&& match emit(fields, before.cursor(), before.data().len() as int) {
        Ok(o) => {
            &&& r is Ok
            &&& after.data() == overwrite(before.data(), before.cursor(), o)
            &&& after.cursor() == before.cursor() + o.len()
        },
        Err(e) => r == Err::<(), Error>(Error::WriteError(e)),
    }
}

/// A fault while writing `done` is the fault of writing `done` and
/// anything after it.
pub proof fn lemma_wrote_fault(
    start: PacketWriter,
    after: PacketWriter,
    done: Seq<Field>,
    rest: Seq<Field>,
    r: crate::packet::Result<()>,
)
    requires
        wrote_fields(&start, &after, done, r),
        r is Err,
    ensures
        wrote_fields(&start, &after, done + rest, r),
{
    lemma_emit_concat(done, rest, start.cursor(), start.data().len() as int);
}

/// Writing `more` after `done` was written is writing `done + more`.
pub proof fn lemma_wrote_then(
    start: PacketWriter,
    before: PacketWriter,
    after: PacketWriter,
    done: Seq<Field>,
    more: Seq<Field>,
    r: crate::packet::Result<()>,
)
    requires
        wrote_fields(&start, &before, done, Ok(())),
        wrote_fields(&before, &after, more, r),
        0 <= start.cursor() <= start.data().len(),
    ensures
        wrote_fields(&start, &after, done + more, r),
{
    let cap = start.data().len() as int;
    lemma_emit_concat(done, more, start.cursor(), cap);
    let o1 = emit(done, start.cursor(), cap)->Ok_0;
    lemma_emit_fits(done, start.cursor(), cap);
    match emit(more, start.cursor() + o1.len(), cap) {
        Ok(o2) => {
            lemma_emit_fits(more, start.cursor() + o1.len(), cap);
            lemma_overwrite_twice(start.data(), start.cursor(), o1, o2);
        },
        Err(_) => {},
    }
}

/// Writes one option: its name, then its value in decimal.
fn put_option(writer: &mut PacketWriter, name: &str, value: u64) -> (r: crate::packet::Result<()>)
    ensures
        wrote_fields(old(writer), final(writer), option_pair(name@, value as nat), r),
        final(final(writer).storage())@ == final(old(writer).storage())@,
{
    // The cursor lies within the buffer.
    let _room = writer.rem();
    let ghost start = *writer;
    let ghost f1 = seq![Field::Text(name@)];
    let ghost f2 = seq![Field::Text(decimal_chars(value as nat))];
    proof {
        assert(f1 + f2 =~= option_pair(name@, value as nat));
        lemma_emit_concat(f1, f2, start.cursor(), start.data().len() as int);
        lemma_emit_one(f1[0], start.cursor(), start.data().len() as int);
    }
    match writer.put_string(name) {
        Ok(()) => {},
        Err(e) => return Err(Error::WriteError(e)),
    }
    let ghost middle = *writer;
    let text = decimal_string(value);
    proof {
        lemma_emit_one(f2[0], middle.cursor(), start.data().len() as int);
    }
    match writer.put_string(text.as_str()) {
        Ok(()) => {},
        Err(e) => return Err(Error::WriteError(e)),
    }
    proof {
        lemma_overwrite_twice(
            start.data(),
            start.cursor(),
            crate::packetwriter::field_octets(f1[0]),
            crate::packetwriter::field_octets(f2[0]),
        );
    }
    Ok(())
}

impl Options {
    pub fn new() -> (r: Options)
        ensures
            r == no_options(),
    {
        Options { blksize: None, timeout: None, tsize: None, windowsize: None }
    }

    /// Is one or more of the options set?
    pub fn is_set(&self) -> (r: bool)
        ensures
            r == (self.blksize is Some || self.timeout is Some || self.tsize is Some
                || self.windowsize is Some),
    {
        self.blksize.is_some() || self.timeout.is_some() || self.tsize.is_some()
            || self.windowsize.is_some()
    }

    /// Reads options from everything that is left in `reader`.
    pub fn read(reader: &mut PacketReader) -> (r: crate::packet::Result<Self>)
        ensures
            final(reader).data() == old(reader).data(),
            final(reader).cursor() == old(reader).data().len(),
            match options_of(
                old(reader).data().subrange(old(reader).cursor(), old(reader).data().len() as int),
            ) {
                Ok(o) => r == Ok::<Options, Error>(o),
                Err(t) => r matches Err(Error::InvalidOptions(m)) && m@ == t,
            },
    {
        match reader.take_remaining() {
            Ok(buffer) => match Self::parse(buffer) {
                Ok(options) => Ok(options),
                Err(error) => Err(Error::InvalidOptions(error)),
            },
            Err(error) => Err(Error::ReadError(error)),
        }
    }

    /// Writes the options that are set, each as a name and a decimal value,
    /// in the canonical order blksize, timeout, tsize, windowsize. With no
    /// option set nothing is written, not even a terminator.
    pub fn write(self, writer: &mut PacketWriter) -> (r: crate::packet::Result<()>)
        ensures
            wrote_fields(old(writer), final(writer), option_fields(self), r),
            final(final(writer).storage())@ == final(old(writer).storage())@,
    {
        // The cursor lies within the buffer.
        let _room = writer.rem();
        let ghost start = *writer;
        let ghost cap = start.data().len() as int;
        let ghost f_blksize = match self.blksize {
            Some(v) => option_pair("blksize"@, v as nat),
            None => Seq::<Field>::empty(),
        };
        let ghost f_timeout = match self.timeout {
            Some(v) => option_pair("timeout"@, v as nat),
            None => Seq::<Field>::empty(),
        };
        let ghost f_tsize = match self.tsize {
            Some(v) => option_pair("tsize"@, v as nat),
            None => Seq::<Field>::empty(),
        };
        let ghost f_windowsize = match self.windowsize {
            Some(v) => option_pair("windowsize"@, v as nat),
            None => Seq::<Field>::empty(),
        };
        let ghost mut done: Seq<Field> = Seq::empty();
        proof {
            assert(emit(done, start.cursor(), cap) == Ok::<Seq<u8>, crate::packetwriter::Error>(
                Seq::empty(),
            ));
            assert(overwrite(start.data(), start.cursor(), Seq::empty()) =~= start.data());
        }
        if let Some(blksize) = self.blksize {
            let ghost before = *writer;
            let r1 = put_option(writer, "blksize", blksize as u64);
            proof {
                lemma_wrote_then(start, before, *writer, done, f_blksize, r1);
            }
            if r1.is_err() {
                proof {
                    lemma_wrote_fault(start, *writer, done + f_blksize, f_timeout + f_tsize + f_windowsize, r1);
                    assert(done + f_blksize + (f_timeout + f_tsize + f_windowsize) =~= option_fields(self));
                }
                return r1;
            }
        }
        proof {
            assert(done + f_blksize =~= f_blksize);
            done = f_blksize;
        }
        if let Some(timeout) = self.timeout {
            let ghost before = *writer;
            let r2 = put_option(writer, "timeout", timeout as u64);
            proof {
                lemma_wrote_then(start, before, *writer, done, f_timeout, r2);
            }
            if r2.is_err() {
                proof {
                    lemma_wrote_fault(start, *writer, done + f_timeout, f_tsize + f_windowsize, r2);
                    assert(done + f_timeout + (f_tsize + f_windowsize) =~= option_fields(self));
                }
                return r2;
            }
        }
        proof {
            if self.timeout is None {
                assert(done + f_timeout =~= done);
            }
            done = done + f_timeout;
        }
        if let Some(tsize) = self.tsize {
            let ghost before = *writer;
            let r3 = put_option(writer, "tsize", tsize);
            proof {
                lemma_wrote_then(start, before, *writer, done, f_tsize, r3);
            }
            if r3.is_err() {
                proof {
                    lemma_wrote_fault(start, *writer, done + f_tsize, f_windowsize, r3);
                    assert(done + f_tsize + f_windowsize =~= option_fields(self));
                }
                return r3;
            }
        }
        proof {
            if self.tsize is None {
                assert(done + f_tsize =~= done);
            }
            done = done + f_tsize;
        }
        if let Some(windowsize) = self.windowsize {
            let ghost before = *writer;
            let r4 = put_option(writer, "windowsize", windowsize as u64);
            proof {
                lemma_wrote_then(start, before, *writer, done, f_windowsize, r4);
            }
            if r4.is_err() {
                proof {
                    assert(done + f_windowsize =~= option_fields(self));
                }
                return r4;
            }
        }
        proof {
            if self.windowsize is None {
                assert(done + f_windowsize =~= done);
            }
            done = done + f_windowsize;
            assert(done =~= option_fields(self));
        }
        Ok(())
    }

    /// Parses options from an option area.
    ///
    /// Note that errors arising from this method are *strings*.
    pub fn parse(buf: &[u8]) -> (r: core::result::Result<Self, String>)
        ensures
            match options_of(buf@) {
                Ok(o) => r == Ok::<Options, String>(o),
                Err(t) => r matches Err(m) && m@ == t,
            },
    {
        let mut container = Self::new();
        let mut options = OptionStringIter::new(buf);
        loop
            invariant
                options.data() == buf@,
                0 <= options.cursor() <= buf@.len(),
                options_of(buf@) == options_from(buf@, options.cursor(), container),
            decreases buf@.len() - options.cursor(),
        {
            proof {
                lemma_find_nul_bounds(buf@, options.cursor());
            }
            let ghost p = options.cursor();
            match options.next() {
                OptionString::Terminated(option) => {
                    let option = decode_lossy(option);
                    proof {
                        lemma_find_nul_bounds(buf@, options.cursor());
                    }
                    match options.next() {
                        OptionString::Terminated(value) => {
                            let value = decode_lossy(value);
                            match container.parse_option(option.as_str(), value.as_str()) {
                                Ok(()) => {},
                                Err(e) => return Err(e),
                            }
                        },
                        OptionString::Unterminated(value) => {
                            let value = decode_lossy(value);
                            let mut m = String::from_str("Option ");
                            m.append(option.as_str());
                            m.append(" has unterminated value ");
                            m.append(value.as_str());
                            return Err(m);
                        },
                        OptionString::End => {
                            let mut m = String::from_str("Option ");
                            m.append(option.as_str());
                            m.append(" has no corresponding value");
                            return Err(m);
                        },
                    }
                },
                OptionString::Unterminated(option) => {
                    let option = decode_lossy(option);
                    let mut m = String::from_str("Option ");
                    m.append(option.as_str());
                    m.append(" is unterminated");
                    return Err(m);
                },
                OptionString::End => {
                    return Ok(container);
                },
            }
        }
    }

    /// Sets the option `option` to `value`, when the name is recognised
    /// (its lowercase form is an option token); unrecognised names are ignored, as RFC 2347 advises.
    pub fn parse_option(&mut self, option: &str, value: &str) -> (r: core::result::Result<
        (),
        String,
    >)
        ensures
            match with_option(*old(self), option@, value@) {
                Ok(o) => r is Ok && *final(self) == o,
                Err(t) => r matches Err(m) && m@ == t && *final(self) == *old(self),
            },
    {
        if lowercases_to_token(option, "blksize") {
            match Options::parse_blksize(value) {
                Ok(v) => {
                    self.blksize = Some(v);
                },
                Err(m) => return Err(m),
            }
        } else if lowercases_to_token(option, "timeout") {
            match Options::parse_timeout(value) {
                Ok(v) => {
                    self.timeout = Some(v);
                },
                Err(m) => return Err(m),
            }
        } else if lowercases_to_token(option, "tsize") {
            match Options::parse_tsize(value) {
                Ok(v) => {
                    self.tsize = Some(v);
                },
                Err(m) => return Err(m),
            }
        } else if lowercases_to_token(option, "windowsize") {
            match Options::parse_windowsize(value) {
                Ok(v) => {
                    self.windowsize = Some(v);
                },
                Err(m) => return Err(m),
            }
        }
        Ok(())
    }

    pub fn parse_blksize(value: &str) -> (r: core::result::Result<u16, String>)
        ensures
            match option_value("blksize"@, value@, u16::MAX as int) {
                Ok(v) => r == Ok::<u16, String>(v as u16),
                Err(t) => r matches Err(m) && m@ == t,
            },
    {
        match Options::parse_value("blksize", value, 65535) {
            Ok(v) => Ok(v as u16),
            Err(m) => Err(m),
        }
    }

    pub fn parse_timeout(value: &str) -> (r: core::result::Result<u8, String>)
        ensures
            match option_value("timeout"@, value@, u8::MAX as int) {
                Ok(v) => r == Ok::<u8, String>(v as u8),
                Err(t) => r matches Err(m) && m@ == t,
            },
    {
        match Options::parse_value("timeout", value, 255) {
            Ok(v) => Ok(v as u8),
            Err(m) => Err(m),
        }
    }

    pub fn parse_tsize(value: &str) -> (r: core::result::Result<u64, String>)
        ensures
            match option_value("tsize"@, value@, u64::MAX as int) {
                Ok(v) => r == Ok::<u64, String>(v as u64),
                Err(t) => r matches Err(m) && m@ == t,
            },
    {
        Options::parse_value("tsize", value, u64::MAX)
    }

    pub fn parse_windowsize(value: &str) -> (r: core::result::Result<u16, String>)
        ensures
            match option_value("windowsize"@, value@, u16::MAX as int) {
                Ok(v) => r == Ok::<u16, String>(v as u16),
                Err(t) => r matches Err(m) && m@ == t,
            },
    {
        match Options::parse_value("windowsize", value, 65535) {
            Ok(v) => Ok(v as u16),
            Err(m) => Err(m),
        }
    }

    /// Reads `value` as a decimal number of at most `max`; the message of a
    /// failure names the option and quotes the value.
    fn parse_value(option: &str, value: &str, max: u64) -> (r: core::result::Result<u64, String>)
        ensures
            match option_value(option@, value@, max as int) {
                Ok(v) => r == Ok::<u64, String>(v as u64),
                Err(t) => r matches Err(m) && m@ == t,
            },
            option_value(option@, value@, max as int) matches Ok(v) ==> 0 <= v <= max,
    {
        proof {
            lemma_decimal_bound(encode_utf8(value@), max as int);
        }
        match parse_decimal(value.as_bytes(), max) {
            Ok(v) => Ok(v),
            Err(error) => {
                let mut m = String::from_str("Invalid ");
                m.append(option);
                m.append(" value ");
                let quoted = debug_string(value);
                m.append(quoted.as_str());
                m.append(": ");
                m.append(error.message());
                Err(m)
            },
        }
    }
}

} // verus!

verus! {

// ---------------------------------------------------------------------------
// Reading back what was written: decimal numbers.
// ---------------------------------------------------------------------------

pub open spec fn all_digits(s: Seq<u8>) -> bool {
    forall|i: int| 0 <= i < s.len() ==> is_digit(#[trigger] s[i])
}

/// The value of a string of digits, most significant first.
pub open spec fn digits_value(s: Seq<u8>) -> int
    decreases s.len(),
{
    if s.len() == 0 {
        0
    } else {
        digits_value(s.drop_last()) * 10 + (s.last() - 48)
    }
}

/// The octets of ASCII characters.
pub open spec fn ascii_octets(cs: Seq<char>) -> Seq<u8> {
    Seq::new(cs.len(), |i: int| cs[i] as u8)
}

proof fn lemma_prefix_value(s: Seq<u8>, k: int)
    requires
        all_digits(s),
        0 <= k <= s.len(),
    ensures
        0 <= digits_value(s.subrange(0, k)) <= digits_value(s),
    decreases s.len(),
{
    if k == s.len() {
        assert(s.subrange(0, k) =~= s);
        if s.len() > 0 {
            lemma_prefix_value(s.drop_last(), 0);
        }
    } else {
        let t = s.drop_last();
        assert(t.subrange(0, k) =~= s.subrange(0, k));
        lemma_prefix_value(t, k);
        lemma_prefix_value(t, t.len() as int);
        assert(t.subrange(0, t.len() as int) =~= t);
    }
}

proof fn lemma_scan_all(s: Seq<u8>, i: int, max: int)
    requires
        all_digits(s),
        0 <= i <= s.len(),
        digits_value(s) <= max,
    ensures
        scan_digits(s, i, digits_value(s.subrange(0, i)), max) == Ok::<int, NumberError>(
            digits_value(s),
        ),
    decreases s.len() - i,
{
    if i == s.len() {
        assert(s.subrange(0, i) =~= s);
    } else {
        let p = s.subrange(0, i + 1);
        assert(p.drop_last() =~= s.subrange(0, i));
        lemma_prefix_value(s, i + 1);
        lemma_scan_all(s, i + 1, max);
    }
}

/// The decimal form of a number is ASCII digits that spell it.
pub proof fn lemma_decimal_chars(n: nat)
    ensures
        decimal_chars(n).len() >= 1,
        vstd::utf8::is_ascii_chars(decimal_chars(n)),
        encode_utf8(decimal_chars(n)) == ascii_octets(decimal_chars(n)),
        all_digits(ascii_octets(decimal_chars(n))),
        digits_value(ascii_octets(decimal_chars(n))) == n,
    decreases n,
{
    let cs = decimal_chars(n);
    let s = ascii_octets(cs);
    if n < 10 {
        assert(digit_char(n as int) as u8 == n + 48);
        assert(s =~= seq![(n + 48) as u8]);
        assert(s.drop_last() =~= Seq::<u8>::empty());
        assert(all_digits(s));
        assert(digits_value(s) == digits_value(s.drop_last()) * 10 + (s.last() - 48));
        assert(digits_value(Seq::<u8>::empty()) == 0);
    } else {
        lemma_decimal_chars(n / 10);
        let d = (n % 10) as int;
        let prev = ascii_octets(decimal_chars(n / 10));
        assert(digit_char(d) as u8 == d + 48);
        assert(s =~= prev.push((d + 48) as u8));
        assert(s.drop_last() =~= prev);
        assert forall|i: int| 0 <= i < s.len() implies is_digit(#[trigger] s[i]) by {
            if i < prev.len() {
                assert(s[i] == prev[i]);
            }
        }
        assert(n == (n / 10) * 10 + n % 10) by (nonlinear_arith);
        assert(s.last() == d + 48);
        assert(digits_value(s) == digits_value(prev) * 10 + (s.last() - 48));
    }
    assert(vstd::utf8::is_ascii_chars(cs));
    vstd::utf8::is_ascii_chars_encode_utf8(cs);
    assert(encode_utf8(cs) =~= ascii_octets(cs));
}

/// Reading the decimal form of a number gives the number back.
pub proof fn lemma_decimal_round_trip(n: nat, max: int)
    requires
        n <= max,
    ensures
        decimal_value(encode_utf8(decimal_chars(n)), max) == Ok::<int, NumberError>(n as int),
{
    lemma_decimal_chars(n);
    let s = ascii_octets(decimal_chars(n));
    assert(s.subrange(0, 0) =~= Seq::<u8>::empty());
    lemma_scan_all(s, 0, max);
    assert(is_digit(s[0]));
}

} // verus!

verus! {

// ---------------------------------------------------------------------------
// Reading back what was written: option areas.
// ---------------------------------------------------------------------------

/// The text of the octets of a string is the string.
pub proof fn lemma_text_of_encoding(s: Seq<char>)
    ensures
        text_of(encode_utf8(s)) == s,
{
    vstd::utf8::encode_utf8_valid_utf8(s);
    vstd::utf8::encode_utf8_decode_utf8(s);
}

pub open spec fn is_option_name(name: Seq<char>) -> bool {
    ||| name == "blksize"@
    ||| name == "timeout"@
    ||| name == "tsize"@
    ||| name == "windowsize"@
}

/// The option names are ASCII, non-empty and free of zero octets, and no
/// two of them are the same, whatever the case.
proof fn lemma_option_names()
    ensures
        forall|n: Seq<char>|
            #[trigger] is_option_name(n) ==> vstd::utf8::is_ascii_chars(n) && !has_nul(n),
        !lowercases_to("timeout"@, "blksize"@),
        !lowercases_to("tsize"@, "blksize"@),
        !lowercases_to("tsize"@, "timeout"@),
        !lowercases_to("windowsize"@, "blksize"@),
        !lowercases_to("windowsize"@, "timeout"@),
        !lowercases_to("windowsize"@, "tsize"@),
{
    reveal_strlit("blksize");
    reveal_strlit("timeout");
    reveal_strlit("tsize");
    reveal_strlit("windowsize");
    assert forall|n: Seq<char>| #[trigger]
        is_option_name(n) implies vstd::utf8::is_ascii_chars(n) && !has_nul(n) by {
        assert(vstd::utf8::is_ascii_chars(n));
        vstd::utf8::is_ascii_chars_encode_utf8(n);
        assert forall|i: int| 0 <= i < encode_utf8(n).len() implies #[trigger] encode_utf8(n)[i]
            != 0 by {
            assert(encode_utf8(n)[i] == n[i] as u8);
        }
    }
    assert(!lowers_to("timeout"@[0], "blksize"@[0]));
}

/// A string with no zero octet, then a terminator, is found as one string.
pub proof fn lemma_find_string(b: Seq<u8>, pos: int, s: Seq<char>)
    requires
        0 <= pos,
        pos + encode_utf8(s).len() < b.len(),
        b.subrange(pos, pos + encode_utf8(s).len() + 1) == encode_utf8(s).push(0),
        !has_nul(s),
    ensures
        find_nul(b, pos) == Some(pos + encode_utf8(s).len()),
        text_of(b.subrange(pos, pos + encode_utf8(s).len())) == s,
{
    let e = encode_utf8(s);
    let i = pos + e.len();
    assert(b[i] == b.subrange(pos, i + 1)[e.len() as int]);
    assert forall|k: int| pos <= k < i implies b[k] != 0 by {
        assert(b[k] == b.subrange(pos, i + 1)[k - pos]);
        assert(b[k] == e[k - pos]);
    }
    lemma_find_nul_at(b, pos, i);
    assert(b.subrange(pos, i) =~= e);
    lemma_text_of_encoding(s);
}

/// Reading one option written at `pos`.
proof fn lemma_read_pair(b: Seq<u8>, pos: int, name: Seq<char>, v: nat, acc: Options)
    requires
        0 <= pos,
        is_option_name(name),
        pos + fields_octets(option_pair(name, v)).len() <= b.len(),
        b.subrange(pos, pos + fields_octets(option_pair(name, v)).len()) == fields_octets(
            option_pair(name, v),
        ),
    ensures
        options_from(b, pos, acc) == match with_option(acc, name, decimal_chars(v)) {
            Ok(o) => options_from(b, pos + fields_octets(option_pair(name, v)).len(), o),
            Err(t) => Err(t),
        },
{
    lemma_option_names();
    lemma_decimal_chars(v);
    let pair = option_pair(name, v);
    let en = encode_utf8(name);
    let dec = decimal_chars(v);
    let ev = encode_utf8(dec);
    reveal_with_fuel(fields_octets, 3);
    assert(pair.drop_first().drop_first() =~= Seq::<Field>::empty());
    let whole = fields_octets(pair);
    assert(whole =~= en.push(0) + ev.push(0));
    let i = pos + en.len();
    let j = i + 1 + ev.len();
    assert(b.subrange(pos, i + 1) =~= en.push(0)) by {
        assert(b.subrange(pos, i + 1) =~= whole.subrange(0, en.len() + 1int));
    }
    lemma_find_string(b, pos, name);
    assert(!has_nul(dec)) by {
        assert forall|k: int| 0 <= k < ev.len() implies #[trigger] ev[k] != 0 by {
            assert(is_digit(ascii_octets(dec)[k]));
        }
    }
    assert(b.subrange(i + 1, j + 1) =~= ev.push(0)) by {
        assert(b.subrange(i + 1, j + 1) =~= whole.subrange(en.len() + 1int, whole.len() as int));
    }
    lemma_find_string(b, i + 1, dec);
}

/// The options that `o` sets, written one after the other, read back as
/// `o`.
#[verifier::rlimit(60)]
pub proof fn lemma_read_options(o: Options)
    ensures
        options_of(fields_octets(option_fields(o))) == Ok::<Options, Seq<char>>(o),
{
    lemma_option_names();
    let f_blksize = match o.blksize {
        Some(v) => option_pair("blksize"@, v as nat),
        None => Seq::<Field>::empty(),
    };
    let f_timeout = match o.timeout {
        Some(v) => option_pair("timeout"@, v as nat),
        None => Seq::<Field>::empty(),
    };
    let f_tsize = match o.tsize {
        Some(v) => option_pair("tsize"@, v as nat),
        None => Seq::<Field>::empty(),
    };
    let f_windowsize = match o.windowsize {
        Some(v) => option_pair("windowsize"@, v as nat),
        None => Seq::<Field>::empty(),
    };
    assert(option_fields(o) == f_blksize + f_timeout + f_tsize + f_windowsize);
    lemma_fields_octets_concat(f_blksize + f_timeout + f_tsize, f_windowsize);
    lemma_fields_octets_concat(f_blksize + f_timeout, f_tsize);
    lemma_fields_octets_concat(f_blksize, f_timeout);
    let a1 = fields_octets(f_blksize);
    let a2 = fields_octets(f_timeout);
    let a3 = fields_octets(f_tsize);
    let a4 = fields_octets(f_windowsize);
    let b = fields_octets(option_fields(o));
    assert(b == a1 + a2 + a3 + a4);
    let q1 = a1.len() as int;
    let q2 = q1 + a2.len();
    let q3 = q2 + a3.len();
    let q4 = q3 + a4.len();
    assert(b.subrange(0, q1) =~= a1);
    assert(b.subrange(q1, q2) =~= a2);
    assert(b.subrange(q2, q3) =~= a3);
    assert(b.subrange(q3, q4) =~= a4);
    let acc0 = no_options();
    let acc1 = Options { blksize: o.blksize, ..acc0 };
    let acc2 = Options { timeout: o.timeout, ..acc1 };
    let acc3 = Options { tsize: o.tsize, ..acc2 };
    let acc4 = Options { windowsize: o.windowsize, ..acc3 };
    assert(options_from(b, 0, acc0) == options_from(b, q1, acc1)) by {
        match o.blksize {
            Some(v) => {
                lemma_read_pair(b, 0, "blksize"@, v as nat, acc0);
                lemma_decimal_round_trip(v as nat, u16::MAX as int);
                lemma_lowercases_to_refl("blksize"@);
            },
            None => {
                assert(a1 =~= Seq::<u8>::empty());
            },
        }
    }
    assert(options_from(b, q1, acc1) == options_from(b, q2, acc2)) by {
        match o.timeout {
            Some(v) => {
                lemma_read_pair(b, q1, "timeout"@, v as nat, acc1);
                lemma_decimal_round_trip(v as nat, u8::MAX as int);
                lemma_lowercases_to_refl("timeout"@);
            },
            None => {
                assert(a2 =~= Seq::<u8>::empty());
            },
        }
    }
    assert(options_from(b, q2, acc2) == options_from(b, q3, acc3)) by {
        match o.tsize {
            Some(v) => {
                lemma_read_pair(b, q2, "tsize"@, v as nat, acc2);
                lemma_decimal_round_trip(v as nat, u64::MAX as int);
                lemma_lowercases_to_refl("tsize"@);
            },
            None => {
                assert(a3 =~= Seq::<u8>::empty());
            },
        }
    }
    assert(options_from(b, q3, acc3) == options_from(b, q4, acc4)) by {
        match o.windowsize {
            Some(v) => {
                lemma_read_pair(b, q3, "windowsize"@, v as nat, acc3);
                lemma_decimal_round_trip(v as nat, u16::MAX as int);
                lemma_lowercases_to_refl("windowsize"@);
            },
            None => {
                assert(a4 =~= Seq::<u8>::empty());
            },
        }
    }
    assert(acc4 == o);
}

/// Every string is the same as itself, ignoring case.
pub proof fn lemma_same_ignoring_case_refl(s: Seq<char>)
    ensures
        same_ignoring_case(s, s),
{
}

/// A token is the lowercase form of itself.
proof fn lemma_lowercases_to_refl(s: Seq<char>)
    ensures
        lowercases_to(s, s),
{
}

/// Options written by `Options::write` parse back, with `Options::parse`,
/// to the same options.
pub proof fn lemma_options_round_trip(o: Options, pos: int, cap: int)
    ensures
        emit(option_fields(o), pos, cap) matches Ok(b) ==> options_of(b) == Ok::<
            Options,
            Seq<char>,
        >(o),
{
    lemma_emit_octets(option_fields(o), pos, cap);
    lemma_read_options(o);
}

} // verus!
