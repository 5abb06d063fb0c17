//! The primitive types of the protocol: each reader decodes one value from
//! the start of a byte slice and reports how many bytes it took.
use crate::bytes::{
    ascii_chars, be_i32_of, be_u32_of, is_ascii_bytes, lossy_string, read_be_i32, read_be_u32,
    utf8_lossy,
};
use crate::data::{DataView, WeechatData};
use crate::errors::{ErrorKind, WeechatParseError};
use vstd::prelude::*;

verus! {

/// The three-byte type tags of the protocol.
#[derive(PartialEq, Eq, Structural, Copy, Clone, Debug)]
pub enum TypeTag {
    Chr,
    Int,
    Lon,
    Str,
    Buf,
    Ptr,
    Tim,
    Arr,
    Hda,
    Htb,
    Inf,
    Inl,
}

/// The tag that the first three bytes of `b` spell, if any.
pub open spec fn tag_of(b: Seq<u8>) -> Option<TypeTag> {
    let t = (b[0], b[1], b[2]);
    if t == (99u8, 104u8, 114u8) {
        Some(TypeTag::Chr)
    } else if t == (105u8, 110u8, 116u8) {
        Some(TypeTag::Int)
    } else if t == (108u8, 111u8, 110u8) {
        Some(TypeTag::Lon)
    } else if t == (115u8, 116u8, 114u8) {
        Some(TypeTag::Str)
    } else if t == (98u8, 117u8, 102u8) {
        Some(TypeTag::Buf)
    } else if t == (112u8, 116u8, 114u8) {
        Some(TypeTag::Ptr)
    } else if t == (116u8, 105u8, 109u8) {
        Some(TypeTag::Tim)
    } else if t == (97u8, 114u8, 114u8) {
        Some(TypeTag::Arr)
    } else if t == (104u8, 100u8, 97u8) {
        Some(TypeTag::Hda)
    } else if t == (104u8, 116u8, 98u8) {
        Some(TypeTag::Htb)
    } else if t == (105u8, 110u8, 102u8) {
        Some(TypeTag::Inf)
    } else if t == (105u8, 110u8, 108u8) {
        Some(TypeTag::Inl)
    } else {
        None
    }
}

/// A decoding result agrees with the outcome stated for it: both fail with
/// the same kind, or both succeed.
pub open spec fn same_outcome<T, U>(r: Result<T, WeechatParseError>, s: Result<U, ErrorKind>) -> bool {
    &&& (r is Ok <==> s is Ok)
    &&& (r is Err ==> r->Err_0.spec_kind() == s->Err_0)
}

/// A decoded value and its byte count match a specified outcome.
pub open spec fn value_outcome(
    r: Result<(usize, WeechatData), WeechatParseError>,
    s: Result<(DataView, nat), ErrorKind>,
) -> bool {
    &&& same_outcome(r, s)
    &&& (r is Ok ==> r->Ok_0.0 == s->Ok_0.1 && r->Ok_0.1.view() == s->Ok_0.0)
}

pub open spec fn malformed<T>() -> Result<T, ErrorKind> {
    Err(ErrorKind::MalformedBinaryParse)
}

/// The text of a field with a one-byte length: its raw bytes and the bytes
/// taken, length byte included.
pub open spec fn spec_short_text(b: Seq<u8>) -> Result<(Seq<u8>, nat), ErrorKind> {
    if b.len() < 1 || b.len() < 1 + b[0] {
        malformed()
    } else {
        Ok((b.subrange(1, 1 + b[0]), (1 + b[0]) as nat))
    }
}

/// The text of a field with a four-byte signed length, where `-1` stands
/// for no text at all.
pub open spec fn spec_long_text(b: Seq<u8>) -> Result<(Option<Seq<u8>>, nat), ErrorKind> {
    if b.len() < 4 {
        malformed()
    } else {
        let n = be_i32_of(b);
        if n == -1 {
            Ok((None, 4))
        } else if n < 0 || b.len() < 4 + n {
            malformed()
        } else {
            Ok((Some(b.subrange(4, 4 + n)), (4 + n) as nat))
        }
    }
}

pub open spec fn is_digit(c: u8) -> bool {
    48 <= c <= 57
}

pub open spec fn is_hex_digit(c: u8) -> bool {
    is_digit(c) || 97 <= c <= 102 || 65 <= c <= 70
}

pub open spec fn all_digits(s: Seq<u8>) -> bool {
    forall|i: int| 0 <= i < s.len() ==> is_digit(s[i])
}

pub open spec fn all_hex_digits(s: Seq<u8>) -> bool {
    forall|i: int| 0 <= i < s.len() ==> is_hex_digit(s[i])
}

/// The base-ten value of a string of digits.
pub open spec fn digits_value(s: Seq<u8>) -> nat
    decreases s.len(),
{
    if s.len() == 0 {
        0
    } else {
        digits_value(s.drop_last()) * 10 + (s.last() - 48) as nat
    }
}

/// The value of decimal text: one or more digits, after an optional `-`.
pub open spec fn decimal_value(s: Seq<u8>) -> Option<int> {
    if s.len() > 0 && s[0] == 45 {
        let d = s.drop_first();
        if d.len() > 0 && all_digits(d) {
            Some(-(digits_value(d) as int))
        } else {
            None
        }
    } else if s.len() > 0 && all_digits(s) {
        Some(digits_value(s) as int)
    } else {
        None
    }
}

/// How a pointer's hex digits are shown: `0x` before them, `0x0` for none.
pub open spec fn pointer_text(digits: Seq<u8>) -> Seq<char> {
    if digits.len() == 0 {
        seq!['0', 'x', '0']
    } else {
        seq!['0', 'x'] + ascii_chars(digits)
    }
}

pub open spec fn spec_chr(b: Seq<u8>) -> Result<(DataView, nat), ErrorKind> {
    if b.len() < 1 {
        malformed()
    } else {
        Ok((DataView::Char(b[0] as char), 1))
    }
}

pub open spec fn spec_int(b: Seq<u8>) -> Result<(DataView, nat), ErrorKind> {
    if b.len() < 4 {
        malformed()
    } else {
        Ok((DataView::Int(be_i32_of(b) as i32), 4))
    }
}

pub open spec fn spec_long(b: Seq<u8>) -> Result<(DataView, nat), ErrorKind> {
    match spec_short_text(b) {
        Err(e) => Err(e),
        Ok((t, k)) => match decimal_value(t) {
            Some(v) => if i64::MIN <= v <= i64::MAX {
                Ok((DataView::Long(v as i64), k))
            } else {
                malformed()
            },
            None => malformed(),
        },
    }
}

pub open spec fn spec_str(b: Seq<u8>) -> Result<(DataView, nat), ErrorKind> {
    match spec_long_text(b) {
        Err(e) => Err(e),
        Ok((None, k)) => Ok((DataView::StrNull, k)),
        Ok((Some(t), k)) => Ok((DataView::Str(utf8_lossy(t)), k)),
    }
}

pub open spec fn spec_buf(b: Seq<u8>) -> Result<(DataView, nat), ErrorKind> {
    match spec_long_text(b) {
        Err(e) => Err(e),
        Ok((None, k)) => Ok((DataView::BufNull, k)),
        Ok((Some(t), k)) => Ok((DataView::Buf(utf8_lossy(t)), k)),
    }
}

pub open spec fn spec_ptr(b: Seq<u8>) -> Result<(DataView, nat), ErrorKind> {
    match spec_short_text(b) {
        Err(e) => Err(e),
        Ok((t, k)) => if all_hex_digits(t) {
            Ok((DataView::Ptr(pointer_text(t)), k))
        } else {
            malformed()
        },
    }
}

pub open spec fn spec_tim(b: Seq<u8>) -> Result<(DataView, nat), ErrorKind> {
    match spec_short_text(b) {
        Err(e) => Err(e),
        Ok((t, k)) => if all_digits(t) {
            Ok((DataView::Time(ascii_chars(t)), k))
        } else {
            malformed()
        },
    }
}

/// The text of the three-byte type tag at the start of `buffer`.
pub fn get_element_type(buffer: &[u8]) -> (r: String)
    requires
        buffer@.len() >= 3,
    ensures
        r@ == utf8_lossy(buffer@.subrange(0, 3)),
{
    lossy_string(&buffer[0..3])
}

/// The type tag at the start of `buffer`.
pub fn read_type_tag(buffer: &[u8]) -> (r: Option<TypeTag>)
    requires
        buffer@.len() >= 3,
    ensures
        r == tag_of(buffer@),
{
    let (b0, b1, b2) = (buffer[0], buffer[1], buffer[2]);
    if b0 == 99 && b1 == 104 && b2 == 114 {
        Some(TypeTag::Chr)
    } else if b0 == 105 && b1 == 110 && b2 == 116 {
        Some(TypeTag::Int)
    } else if b0 == 108 && b1 == 111 && b2 == 110 {
        Some(TypeTag::Lon)
    } else if b0 == 115 && b1 == 116 && b2 == 114 {
        Some(TypeTag::Str)
    } else if b0 == 98 && b1 == 117 && b2 == 102 {
        Some(TypeTag::Buf)
    } else if b0 == 112 && b1 == 116 && b2 == 114 {
        Some(TypeTag::Ptr)
    } else if b0 == 116 && b1 == 105 && b2 == 109 {
        Some(TypeTag::Tim)
    } else if b0 == 97 && b1 == 114 && b2 == 114 {
        Some(TypeTag::Arr)
    } else if b0 == 104 && b1 == 100 && b2 == 97 {
        Some(TypeTag::Hda)
    } else if b0 == 104 && b1 == 116 && b2 == 98 {
        Some(TypeTag::Htb)
    } else if b0 == 105 && b1 == 110 && b2 == 102 {
        Some(TypeTag::Inf)
    } else if b0 == 105 && b1 == 110 && b2 == 108 {
        Some(TypeTag::Inl)
    } else {
        None
    }
}

fn too_short() -> (r: WeechatParseError)
    ensures
        r.spec_kind() == ErrorKind::MalformedBinaryParse,
{
    WeechatParseError::new(ErrorKind::MalformedBinaryParse, "failed to parse binary data")
}

/// The first byte of `buffer`.
pub fn read_u8(buffer: &[u8]) -> (r: Result<u8, WeechatParseError>)
    ensures
        match r {
            Ok(v) => buffer@.len() >= 1 && v == buffer@[0],
            Err(e) => buffer@.len() < 1 && e.spec_kind() == ErrorKind::MalformedBinaryParse,
        },
{
    if buffer.len() < 1 {
        Err(too_short())
    } else {
        Ok(buffer[0])
    }
}

/// The big-endian `u32` at the start of `buffer`.
pub fn read_u32(buffer: &[u8]) -> (r: Result<u32, WeechatParseError>)
    ensures
        match r {
            Ok(v) => buffer@.len() >= 4 && v as int == be_u32_of(buffer@),
            Err(e) => buffer@.len() < 4 && e.spec_kind() == ErrorKind::MalformedBinaryParse,
        },
{
    if buffer.len() < 4 {
        Err(too_short())
    } else {
        Ok(read_be_u32(buffer))
    }
}

/// The big-endian `i32` at the start of `buffer`.
pub fn read_i32(buffer: &[u8]) -> (r: Result<i32, WeechatParseError>)
    ensures
        match r {
            Ok(v) => buffer@.len() >= 4 && v as int == be_i32_of(buffer@),
            Err(e) => buffer@.len() < 4 && e.spec_kind() == ErrorKind::MalformedBinaryParse,
        },
{
    if buffer.len() < 4 {
        Err(too_short())
    } else {
        Ok(read_be_i32(buffer))
    }
}

/// The end of the text of a field with a one-byte length; the text is
/// `buffer[1..end]`.
fn short_text_end(buffer: &[u8]) -> (r: Result<usize, WeechatParseError>)
    ensures
        same_outcome(r, spec_short_text(buffer@)),
        r is Ok ==> {
            let (t, k) = spec_short_text(buffer@)->Ok_0;
            &&& r->Ok_0 == k
            &&& 1 <= k <= buffer@.len()
            &&& buffer@.subrange(1, k as int) == t
        },
{
    let length = read_u8(buffer)?;
    let end = length as usize + 1;
    if buffer.len() < end {
        Err(too_short())
    } else {
        Ok(end)
    }
}

/// A field with a one-byte length: the bytes taken and its text, decoded as
/// lossy UTF-8.
pub fn read_string_8bit_length(buffer: &[u8]) -> (r: Result<(usize, String), WeechatParseError>)
    ensures
        same_outcome(r, spec_short_text(buffer@)),
        r is Ok ==> {
            let (t, k) = spec_short_text(buffer@)->Ok_0;
            r->Ok_0.0 == k && r->Ok_0.1@ == utf8_lossy(t)
        },
{
    let end = short_text_end(buffer)?;
    let value = lossy_string(&buffer[1..end]);
    Ok((end, value))
}

/// The text of an optional field, where a missing one reads as empty.
pub open spec fn text_or_empty(t: Option<Seq<u8>>) -> Seq<u8> {
    match t {
        Some(x) => x,
        None => Seq::empty(),
    }
}

/// The end of a field with a four-byte signed length; its text, empty where
/// it is missing, is `buffer[4..end]`.
pub fn long_text_end(buffer: &[u8]) -> (r: Result<usize, WeechatParseError>)
    ensures
        same_outcome(r, spec_long_text(buffer@)),
        r is Ok ==> {
            let (t, k) = spec_long_text(buffer@)->Ok_0;
            &&& r->Ok_0 == k
            &&& 4 <= k <= buffer@.len()
            &&& buffer@.subrange(4, k as int) == text_or_empty(t)
        },
{
    let size = read_i32(buffer)?;
    if size == -1 {
        assert(buffer@.subrange(4, 4) =~= Seq::<u8>::empty());
        return Ok(4);
    }
    if size < 0 || buffer.len() - 4 < size as usize {
        return Err(too_short());
    }
    Ok(size as usize + 4)
}

/// A field with a four-byte signed length: the bytes taken and its text,
/// decoded as lossy UTF-8, or `None` for the length `-1`.
pub fn read_string_32bit_length(buffer: &[u8]) -> (r: Result<
    (usize, Option<String>),
    WeechatParseError,
>)
    ensures
        same_outcome(r, spec_long_text(buffer@)),
        r is Ok ==> {
            let (t, k) = spec_long_text(buffer@)->Ok_0;
            &&& r->Ok_0.0 == k
            &&& r->Ok_0.1 is None <==> t is None
            &&& r->Ok_0.1 is Some ==> r->Ok_0.1->Some_0@ == utf8_lossy(t->Some_0)
        },
        buffer@.len() >= 4 && be_i32_of(buffer@) == -1 ==> r matches Ok((4, None)),
        buffer@.len() >= 4 && be_i32_of(buffer@) == 0 ==> (r matches Ok((4, Some(s))) && s@
            == Seq::<char>::empty()),
{
    let size = read_i32(buffer)?;
    if size == -1 {
        return Ok((4, None));
    }
    if size < 0 || buffer.len() - 4 < size as usize {
        return Err(too_short());
    }
    let end = size as usize + 4;
    let value = lossy_string(&buffer[4..end]);
    Ok((end, Some(value)))
}


/// Decodes one value of a non-container type.
pub open spec fn spec_scalar(tag: TypeTag, b: Seq<u8>) -> Result<(DataView, nat), ErrorKind> {
    match tag {
        TypeTag::Chr => spec_chr(b),
        TypeTag::Int => spec_int(b),
        TypeTag::Lon => spec_long(b),
        TypeTag::Str => spec_str(b),
        TypeTag::Buf => spec_buf(b),
        TypeTag::Ptr => spec_ptr(b),
        TypeTag::Tim => spec_tim(b),
        _ => Err(ErrorKind::UnknownType),
    }
}

/// The tags whose values have a fixed layout: what an hdata schema may name.
pub open spec fn is_field_tag(tag: TypeTag) -> bool {
    match tag {
        TypeTag::Hda | TypeTag::Htb | TypeTag::Inf | TypeTag::Inl => false,
        _ => true,
    }
}

/// The element types that an array may have.
pub open spec fn is_array_element_tag(tag: TypeTag) -> bool {
    tag == TypeTag::Str || tag == TypeTag::Int
}

/// The result of one step of [`spec_repeat`]: what the `i`-th item is, and
/// the bytes it takes from the start of the slice it is given.
pub type StepFn<T> = spec_fn(int, Seq<u8>) -> Result<(T, nat), ErrorKind>;

/// The first `n` items laid end to end from the start of `b`, each decoded
/// by `step`, and the bytes they take; the first failure ends it.
pub open spec fn spec_repeat<T>(step: StepFn<T>, b: Seq<u8>, n: nat) -> Result<(Seq<T>, nat), ErrorKind>
    decreases n,
{
    if n == 0 {
        Ok((Seq::empty(), 0))
    } else {
        match spec_repeat(step, b, (n - 1) as nat) {
            Err(e) => Err(e),
            Ok((vs, used)) => match step(n - 1, b.skip(used as int)) {
                Err(e) => Err(e),
                Ok((v, k)) => Ok((vs.push(v), used + k)),
            },
        }
    }
}

/// Decoding each item as a scalar of type `tag`.
pub open spec fn scalar_step(tag: TypeTag) -> StepFn<DataView> {
    |i: int, c: Seq<u8>| spec_scalar(tag, c)
}

/// The first `n` elements of type `tag` laid end to end from the start of
/// `b`, and the bytes they take.
pub open spec fn spec_elements(tag: TypeTag, b: Seq<u8>, n: nat) -> Result<(Seq<DataView>, nat), ErrorKind> {
    spec_repeat(scalar_step(tag), b, n)
}

/// An array: element tag, four-byte signed count, then the elements.
pub open spec fn spec_array(b: Seq<u8>) -> Result<(DataView, nat), ErrorKind> {
    if b.len() < 7 || be_i32_of(b.skip(3)) < 0 {
        malformed()
    } else {
        match tag_of(b) {
            Some(tag) => if is_array_element_tag(tag) {
                match spec_elements(tag, b.skip(7), be_i32_of(b.skip(3)) as nat) {
                    Err(e) => Err(e),
                    Ok((vs, used)) => Ok((DataView::Array(vs), 7 + used)),
                }
            } else {
                Err(ErrorKind::UnknownType)
            },
            None => Err(ErrorKind::UnknownType),
        }
    }
}

/// Decodes one value whose type a schema or the value's own tag gives.
#[verifier::opaque]
pub open spec fn spec_field(tag: TypeTag, b: Seq<u8>) -> Result<(DataView, nat), ErrorKind> {
    if tag == TypeTag::Arr {
        spec_array(b)
    } else {
        spec_scalar(tag, b)
    }
}

/// The view of a vector of values.
pub open spec fn values_view(v: Seq<WeechatData>) -> Seq<DataView> {
    v.map_values(|x: WeechatData| x.view())
}

pub proof fn lemma_digits_prefix_le(s: Seq<u8>, i: int)
    requires
        all_digits(s),
        0 <= i <= s.len(),
    ensures
        digits_value(s.subrange(0, i)) <= digits_value(s),
    decreases s.len(),
{
    if i < s.len() {
        lemma_digits_prefix_le(s.drop_last(), i);
        assert(s.drop_last().subrange(0, i) =~= s.subrange(0, i));
    } else {
        assert(s.subrange(0, i) =~= s);
    }
}

/// Once a repetition fails, every longer one fails the same way.
pub proof fn lemma_repeat_err_stays<T>(step: StepFn<T>, b: Seq<u8>, m: nat, n: nat)
    requires
        m <= n,
        spec_repeat(step, b, m) is Err,
    ensures
        spec_repeat(step, b, n) == spec_repeat(step, b, m),
    decreases n,
{
    if m < n {
        lemma_repeat_err_stays(step, b, m, (n - 1) as nat);
    }
}

/// The value of decimal text, where it fits in an `i64`.
fn parse_decimal(t: &[u8]) -> (r: Option<i64>)
    ensures
        match decimal_value(t@) {
            Some(v) => if i64::MIN <= v <= i64::MAX {
                r == Some(v as i64)
            } else {
                r is None
            },
            None => r is None,
        },
{
    let negative = t.len() > 0 && t[0] == 45;
    let start: usize = if negative {
        1
    } else {
        0
    };
    if start >= t.len() {
        return None;
    }
    let ghost d = t@.subrange(start as int, t@.len() as int);
    let mut acc: u128 = 0;
    let mut i: usize = start;
    while i < t.len()
        invariant
            start <= i <= t.len(),
            negative == (t@.len() > 0 && t@[0] == 45),
            start == (if negative { 1usize } else { 0usize }),
            d == t@.subrange(start as int, t@.len() as int),
            acc == digits_value(t@.subrange(start as int, i as int)),
            acc <= 0x8000_0000_0000_0000,
            forall|j: int| start <= j < i ==> is_digit(t@[j]),
        decreases t.len() - i,
    {
        let c = t[i];
        if c < 48 || c > 57 {
            proof {
                assert(!is_digit(d[i - start]));
                if negative {
                    assert(t@.drop_first() =~= d);
                }
            }
            return None;
        }
        assert(t@.subrange(start as int, i + 1).drop_last() =~= t@.subrange(start as int, i as int));
        let next = acc * 10 + (c - 48) as u128;
        assert(digits_value(t@.subrange(start as int, i + 1)) == next);
        if next > 0x8000_0000_0000_0000 {
            proof {
                if negative {
                    assert(t@.drop_first() =~= d);
                } else {
                    assert(t@ =~= d);
                }
                assert(digits_value(t@.subrange(start as int, i + 1)) == next);
                if all_digits(d) {
                    lemma_digits_prefix_le(d, i + 1 - start);
                    assert(d.subrange(0, i + 1 - start) =~= t@.subrange(start as int, i + 1));
                }
            }
            return None;
        }
        acc = next;
        i = i + 1;
    }
    assert(t@.subrange(start as int, i as int) =~= d);
    assert(all_digits(d));
    if negative {
        assert(t@.drop_first() =~= d);
        if acc == 0x8000_0000_0000_0000 {
            Some(i64::MIN)
        } else {
            Some(-(acc as i64))
        }
    } else {
        assert(t@ =~= d);
        if acc > 0x7fff_ffff_ffff_ffff {
            None
        } else {
            Some(acc as i64)
        }
    }
}

fn all_hex(t: &[u8]) -> (r: bool)
    ensures
        r == all_hex_digits(t@),
{
    let mut i: usize = 0;
    while i < t.len()
        invariant
            i <= t.len(),
            forall|j: int| 0 <= j < i ==> is_hex_digit(t@[j]),
        decreases t.len() - i,
    {
        let c = t[i];
        if !((48 <= c && c <= 57) || (97 <= c && c <= 102) || (65 <= c && c <= 70)) {
            return false;
        }
        i = i + 1;
    }
    true
}

fn all_decimal(t: &[u8]) -> (r: bool)
    ensures
        r == all_digits(t@),
{
    let mut i: usize = 0;
    while i < t.len()
        invariant
            i <= t.len(),
            forall|j: int| 0 <= j < i ==> is_digit(t@[j]),
        decreases t.len() - i,
    {
        let c = t[i];
        if c < 48 || c > 57 {
            return false;
        }
        i = i + 1;
    }
    true
}

fn bad_text(description: &'static str) -> (r: WeechatParseError)
    ensures
        r.spec_kind() == ErrorKind::MalformedBinaryParse,
{
    WeechatParseError::new(ErrorKind::MalformedBinaryParse, description)
}

/// A `lon` value: decimal text with a one-byte length.
pub fn read_long(buffer: &[u8]) -> (r: Result<(usize, i64), WeechatParseError>)
    ensures
        same_outcome(r, spec_long(buffer@)),
        r is Ok ==> spec_long(buffer@)->Ok_0 == (DataView::Long(r->Ok_0.1), r->Ok_0.0 as nat),
{
    let end = short_text_end(buffer)?;
    match parse_decimal(&buffer[1..end]) {
        Some(value) => Ok((end, value)),
        None => Err(bad_text("invalid decimal text")),
    }
}

/// A `ptr` value: hex digits with a one-byte length, shown as `0x` and the
/// digits (`0x0` where there are none).
pub fn read_pointer(buffer: &[u8]) -> (r: Result<(usize, String), WeechatParseError>)
    ensures
        same_outcome(r, spec_ptr(buffer@)),
        r is Ok ==> spec_ptr(buffer@)->Ok_0 == (DataView::Ptr(r->Ok_0.1@), r->Ok_0.0 as nat),
        r is Ok ==> r->Ok_0.0 <= buffer@.len(),
{
    let end = short_text_end(buffer)?;
    let digits = &buffer[1..end];
    if !all_hex(digits) {
        return Err(bad_text("invalid hex text"));
    }
    let mut text: Vec<u8> = Vec::new();
    text.push(48);
    text.push(120);
    if digits.len() == 0 {
        text.push(48);
    }
    let mut i: usize = 0;
    while i < digits.len()
        invariant
            i <= digits.len(),
            all_hex_digits(digits@),
            digits.len() > 0 ==> text@ == seq![48u8, 120u8] + digits@.subrange(0, i as int),
            digits.len() == 0 ==> text@ == seq![48u8, 120u8, 48u8],
        decreases digits.len() - i,
    {
        text.push(digits[i]);
        i = i + 1;
        assert(digits@.subrange(0, i as int) =~= digits@.subrange(0, i - 1).push(digits@[i - 1]));
    }
    assert(digits@.subrange(0, i as int) =~= digits@);
    assert(is_ascii_bytes(text@));
    let value = lossy_string(text.as_slice());
    assert(value@ =~= pointer_text(digits@));
    Ok((end, value))
}

/// A `tim` value: a Unix timestamp as decimal text with a one-byte length.
pub fn read_time(buffer: &[u8]) -> (r: Result<(usize, String), WeechatParseError>)
    ensures
        same_outcome(r, spec_tim(buffer@)),
        r is Ok ==> spec_tim(buffer@)->Ok_0 == (DataView::Time(r->Ok_0.1@), r->Ok_0.0 as nat),
{
    let end = short_text_end(buffer)?;
    let digits = &buffer[1..end];
    if !all_decimal(digits) {
        return Err(bad_text("invalid decimal text"));
    }
    let value = lossy_string(digits);
    Ok((end, value))
}

/// One value of a non-container type.
pub fn read_scalar(tag: TypeTag, buffer: &[u8]) -> (r: Result<(usize, WeechatData), WeechatParseError>)
    ensures
        value_outcome(r, spec_scalar(tag, buffer@)),
        r is Ok ==> r->Ok_0.0 <= buffer@.len(),
{
    match tag {
        TypeTag::Chr => {
            let value = read_u8(buffer)?;
            Ok((1, WeechatData::Char(value as char)))
        },
        TypeTag::Int => {
            let value = read_i32(buffer)?;
            Ok((4, WeechatData::Int(value)))
        },
        TypeTag::Lon => {
            let (len, value) = read_long(buffer)?;
            Ok((len, WeechatData::Long(value)))
        },
        TypeTag::Str => {
            let (len, value) = read_string_32bit_length(buffer)?;
            match value {
                Some(s) => Ok((len, WeechatData::String(s))),
                None => Ok((len, WeechatData::StringNull)),
            }
        },
        TypeTag::Buf => {
            let (len, value) = read_string_32bit_length(buffer)?;
            match value {
                Some(s) => Ok((len, WeechatData::Buffer(s))),
                None => Ok((len, WeechatData::BufferNull)),
            }
        },
        TypeTag::Ptr => {
            let (len, value) = read_pointer(buffer)?;
            Ok((len, WeechatData::Pointer(value)))
        },
        TypeTag::Tim => {
            let (len, value) = read_time(buffer)?;
            Ok((len, WeechatData::Time(value)))
        },
        _ => Err(WeechatParseError::new(ErrorKind::UnknownType, "not a scalar type")),
    }
}


pub proof fn lemma_array_view(v: Vec<WeechatData>)
    ensures
        WeechatData::Array(v).view() == DataView::Array(values_view(v@)),
{
    assert(WeechatData::Array(v).view()->Array_0 =~= values_view(v@));
}

/// An `arr` value: element tag, four-byte signed count, then the elements.
/// Only `str` and `int` elements are supported.
pub fn read_array(buffer: &[u8]) -> (r: Result<(usize, Vec<WeechatData>), WeechatParseError>)
    ensures
        same_outcome(r, spec_array(buffer@)),
        r is Ok ==> spec_array(buffer@)->Ok_0 == (
            DataView::Array(values_view(r->Ok_0.1@)),
            r->Ok_0.0 as nat,
        ),
        r is Ok ==> r->Ok_0.0 <= buffer@.len(),
{
    if buffer.len() < 7 {
        return Err(too_short());
    }
    let count = read_i32(&buffer[3..7])?;
    assert(buffer@.subrange(3, 7) =~= buffer@.skip(3).subrange(0, 4));
    if count < 0 {
        return Err(bad_text("negative array count"));
    }
    let tag = match read_type_tag(buffer) {
        Some(TypeTag::Str) => TypeTag::Str,
        Some(TypeTag::Int) => TypeTag::Int,
        _ => {
            return Err(
                WeechatParseError::new(ErrorKind::UnknownType, "array element type not implemented"),
            );
        },
    };
    let ghost elems = buffer@.skip(7);
    let total = count as usize;
    let mut acc: Vec<WeechatData> = Vec::new();
    let mut position: usize = 7;
    let mut n: usize = 0;
    assert(values_view(acc@) =~= Seq::<DataView>::empty());
    while n < total
        invariant
            7 <= position <= buffer.len(),
            n <= total,
            total == be_i32_of(buffer@.skip(3)),
            elems == buffer@.skip(7),
            is_array_element_tag(tag),
            tag_of(buffer@) == Some(tag),
            spec_elements(tag, elems, n as nat) == Ok::<(Seq<DataView>, nat), ErrorKind>(
                (values_view(acc@), (position - 7) as nat),
            ),
        decreases total - n,
    {
        let rest = &buffer[position..buffer.len()];
        assert(rest@ =~= elems.skip(position - 7));
        match read_scalar(tag, rest) {
            Err(e) => {
                proof {
                    lemma_repeat_err_stays(scalar_step(tag), elems, (n + 1) as nat, total as nat);
                }
                return Err(e);
            },
            Ok((len, value)) => {
                let ghost before = acc@;
                acc.push(value);
                position = position + len;
                n = n + 1;
                assert(values_view(acc@) =~= values_view(before).push(value.view()));
            },
        }
    }
    Ok((position, acc))
}

/// One value of the type `tag`, as an hdata schema or an array lays it out.
pub fn read_field(tag: TypeTag, buffer: &[u8]) -> (r: Result<(usize, WeechatData), WeechatParseError>)
    ensures
        value_outcome(r, spec_field(tag, buffer@)),
        r is Ok ==> r->Ok_0.0 <= buffer@.len(),
{
    reveal(spec_field);
    if tag == TypeTag::Arr {
        let (len, value) = read_array(buffer)?;
        proof {
            lemma_array_view(value);
        }
        Ok((len, WeechatData::Array(value)))
    } else {
        read_scalar(tag, buffer)
    }
}

} // verus!
