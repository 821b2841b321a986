//! The values that a contract compares: numbers, byte strings, and lists of
//! them, with their binary encoding.

use crate::types::bits::{reversed, swap_bits};
use vstd::bytes::{spec_u64_from_le_bytes, spec_u64_to_le_bytes, u64_from_le_bytes, u64_to_le_bytes};
use vstd::prelude::*;
use vstd::slice::slice_subrange;

verus! {

/// A string-like type: an opaque run of bytes.
#[derive(Debug, PartialEq, PartialOrd, Clone)]
pub struct StringLike<'a>(pub &'a [u8]);

/// A numeric type.
#[derive(Debug, PartialEq, PartialOrd, Clone)]
pub struct Numeric(pub u64);

/// Over-arching type system of the contract language.
#[derive(Debug, PartialEq)]
pub enum PactType<'a> {
    StringLike(StringLike<'a>),
    Numeric(Numeric),
    List(Vec<PactType<'a>>),
}

/// The mathematical value that a `PactType` stands for.
pub ghost enum Value {
    StringLike(Seq<u8>),
    Numeric(u64),
    List(Seq<Value>),
}

impl<'a> PactType<'a> {
    /// The value that `self` stands for.
    pub open spec fn value(&self) -> Value
        decreases self,
    {
        match self {
            PactType::StringLike(s) => Value::StringLike(s.0@),
            PactType::Numeric(n) => Value::Numeric(n.0),
            PactType::List(l) => Value::List(
                Seq::new(
                    l.len() as nat,
                    |i: int|
                        if 0 <= i < l.len() {
                            l[i].value()
                        } else {
                            arbitrary()
                        },
                ),
            ),
        }
    }
}

impl<'a> View for PactType<'a> {
    type V = Value;

    open spec fn view(&self) -> Value {
        self.value()
    }
}

/// The length byte that the encoder writes for `n` bytes: `n` modulo 256.
pub open spec fn length_byte(n: nat) -> u8 {
    (n % 256) as u8
}

/// Encoding of a byte string: type id 0, the length byte, then the bytes as
/// they are. The two header bytes are bit-reversed.
pub open spec fn encoded_string(s: Seq<u8>) -> Seq<u8> {
    seq![0u8, reversed(length_byte(s.len()))] + s
}

/// Encoding of a number: type id 1, length 8, then the eight bytes of the
/// number, least significant first. Every byte is bit-reversed.
pub open spec fn encoded_numeric(n: u64) -> Seq<u8> {
    seq![reversed(1u8), reversed(8u8)] + spec_u64_to_le_bytes(n).map_values(|b: u8| reversed(b))
}

/// Encoding of one list element. A list inside a list is not written.
pub open spec fn encoded_element(v: Value) -> Seq<u8> {
    match v {
        Value::StringLike(s) => encoded_string(s),
        Value::Numeric(n) => encoded_numeric(n),
        Value::List(_) => Seq::empty(),
    }
}

/// The payload of a list: the encodings of its elements, one after another.
pub open spec fn encoded_elements(l: Seq<Value>) -> Seq<u8>
    decreases l.len(),
{
    if l.len() == 0 {
        Seq::empty()
    } else {
        encoded_elements(l.drop_last()) + encoded_element(l.last())
    }
}

/// Encoding of a value. A list is type id 2, the length byte of its payload,
/// then the payload.
pub open spec fn encoded(v: Value) -> Seq<u8> {
    match v {
        Value::StringLike(s) => encoded_string(s),
        Value::Numeric(n) => encoded_numeric(n),
        Value::List(l) => seq![reversed(2u8), reversed(length_byte(encoded_elements(l).len()))]
            + encoded_elements(l),
    }
}

/// The values that a sequence of `PactType`s stands for.
pub open spec fn views(l: Seq<PactType>) -> Seq<Value> {
    l.map_values(|p: PactType| p@)
}

/// The view of a list holds the views of its elements, in order.
pub proof fn lemma_list_view(l: Vec<PactType>)
    ensures
        PactType::List(l)@ == Value::List(views(l@)),
{
    reveal_with_fuel(PactType::value, 2);
    assert(PactType::List(l)@->List_0 =~= views(l@));
}

/// Why a run of bytes is not the encoding of a value.
pub ghost enum Malformed {
    /// The buffer is empty.
    MissingTypeId,
    /// The buffer ends after the type id.
    MissingLength,
    /// The length byte asks for more bytes than the buffer holds.
    LengthExceedsBuffer,
    /// The type id is none of 0, 1, 2.
    UnsupportedTypeId,
    /// A number whose length byte is not 8.
    NumericWidth,
    /// A list element that ends behind the list's payload.
    ListOverflow,
}

impl Malformed {
    /// The message that the decoder reports for this fault.
    pub open spec fn text(self) -> Seq<char> {
        match self {
            Malformed::MissingTypeId => "missing type ID byte"@,
            Malformed::MissingLength => "missing type length byte"@,
            Malformed::LengthExceedsBuffer => "type length > buffer length"@,
            Malformed::UnsupportedTypeId => "unsupported type ID"@,
            Malformed::NumericWidth => "implementation only supports 64-bit numerics"@,
            Malformed::ListOverflow => "list length overflow"@,
        }
    }
}

/// The payload length that the two header bytes of `buf` announce, where
/// both are there and the payload fits into the rest of `buf`.
pub open spec fn header(buf: Seq<u8>) -> Result<nat, Malformed> {
    if buf.len() == 0 {
        Err(Malformed::MissingTypeId)
    } else if buf.len() == 1 {
        Err(Malformed::MissingLength)
    } else if reversed(buf[1]) > buf.len() - 2 {
        Err(Malformed::LengthExceedsBuffer)
    } else {
        Ok(reversed(buf[1]) as nat)
    }
}

/// The number of bytes that a value at the start of `buf` takes: the two
/// header bytes and the announced payload.
pub open spec fn consumed(buf: Seq<u8>) -> nat {
    2 + reversed(buf[1]) as nat
}

/// The value encoded at the start of `buf`.
pub open spec fn decoded(buf: Seq<u8>) -> Result<Value, Malformed>
    decreases buf.len(), 0nat,
{
    match header(buf) {
        Err(e) => Err(e),
        Ok(len) => {
            let id = reversed(buf[0]);
            if id == 0 {
                Ok(Value::StringLike(buf.subrange(2, 2 + len as int)))
            } else if id == 1 {
                if len != 8 {
                    Err(Malformed::NumericWidth)
                } else {
                    Ok(
                        Value::Numeric(
                            spec_u64_from_le_bytes(
                                buf.subrange(2, 10).map_values(|b: u8| reversed(b)),
                            ),
                        ),
                    )
                }
            } else if id == 2 {
                match decoded_items(buf.skip(2), len) {
                    Err(e) => Err(e),
                    Ok(l) => Ok(Value::List(l)),
                }
            } else {
                Err(Malformed::UnsupportedTypeId)
            }
        },
    }
}

/// The elements of a list whose payload of `remaining` bytes starts `rest`.
/// An element is read from all of `rest`, and must end within the payload.
pub open spec fn decoded_items(rest: Seq<u8>, remaining: nat) -> Result<Seq<Value>, Malformed>
    decreases rest.len(), 1nat,
{
    if remaining == 0 {
        Ok(Seq::empty())
    } else {
        match header(rest) {
            Err(e) => Err(e),
            Ok(len) => match decoded(rest) {
                Err(e) => Err(e),
                Ok(v) => if 2 + len > remaining {
                    Err(Malformed::ListOverflow)
                } else {
                    prepended(
                        seq![v],
                        decoded_items(rest.skip(2 + len as int), (remaining - 2 - len) as nat),
                    )
                },
            },
        }
    }
}

/// What `decoded_items` says of a payload that is not empty: its first
/// element decides, then the rest of the payload.
pub proof fn lemma_items_unfold(rest: Seq<u8>, remaining: nat)
    requires
        remaining > 0,
    ensures
        decoded_items(rest, remaining) == match decoded(rest) {
            Err(e) => Err::<Seq<Value>, Malformed>(e),
            Ok(v) => if consumed(rest) > remaining {
                Err(Malformed::ListOverflow)
            } else {
                prepended(
                    seq![v],
                    decoded_items(
                        rest.skip(consumed(rest) as int),
                        (remaining - consumed(rest)) as nat,
                    ),
                )
            },
        },
{
}

/// `tail` with `head` put in front of the elements, where there are any.
pub open spec fn prepended(head: Seq<Value>, tail: Result<Seq<Value>, Malformed>) -> Result<
    Seq<Value>,
    Malformed,
> {
    match tail {
        Ok(l) => Ok(head + l),
        Err(e) => Err(e),
    }
}

fn encode_string(s: &[u8], buf: &mut Vec<u8>)
    ensures
        final(buf)@ == old(buf)@ + encoded_string(s@),
{
    buf.push(0);
    buf.push(swap_bits((s.len() % 256) as u8));
    buf.extend_from_slice(s);
    assert(buf@ =~= old(buf)@ + encoded_string(s@));
}

fn encode_numeric(n: u64, buf: &mut Vec<u8>)
    ensures
        final(buf)@ == old(buf)@ + encoded_numeric(n),
{
    buf.push(swap_bits(1));
    // only 64-bit numerics are supported
    buf.push(swap_bits(8));
    let bytes = u64_to_le_bytes(n);
    let ghost head = buf@;
    let mut i: usize = 0;
    while i < bytes.len()
        invariant
            i <= bytes.len(),
            bytes@ == spec_u64_to_le_bytes(n),
            buf@ == head + bytes@.subrange(0, i as int).map_values(|b: u8| reversed(b)),
        decreases bytes.len() - i,
    {
        buf.push(swap_bits(bytes[i]));
        i += 1;
        assert(buf@ =~= head + bytes@.subrange(0, i as int).map_values(|b: u8| reversed(b)));
    }
    assert(bytes@.subrange(0, i as int) =~= bytes@);
    assert(buf@ =~= old(buf)@ + encoded_numeric(n));
}

impl<'a> Clone for PactType<'a> {
    fn clone(&self) -> (r: Self)
        ensures
            r@ == self@,
        decreases self,
    {
        match self {
            PactType::StringLike(s) => PactType::StringLike(StringLike(s.0)),
            PactType::Numeric(n) => PactType::Numeric(Numeric(n.0)),
            PactType::List(l) => {
                let mut items: Vec<PactType<'a>> = Vec::new();
                let mut i: usize = 0;
                while i < l.len()
                    invariant
                        i <= l.len(),
                        self matches PactType::List(v) && v == *l,
                        views(items@) == views(l@.take(i as int)),
                    decreases l.len() - i,
                {
                    let ghost before = items@;
                    let item = l[i].clone();
                    items.push(item);
                    i += 1;
                    proof {
                        assert(items@ =~= before.push(item));
                        assert(l@.take(i as int) =~= l@.take(i - 1).push(l[i - 1]));
                        assert(views(before.push(item)) =~= views(before).push(item@));
                        assert(views(l@.take(i - 1).push(l[i - 1])) =~= views(l@.take(i - 1)).push(
                            l[i - 1]@,
                        ));
                    }
                }
                proof {
                    assert(l@.take(i as int) =~= l@);
                    lemma_list_view(items);
                    lemma_list_view(*l);
                }
                PactType::List(items)
            },
        }
    }
}

/// Reads the number whose eight bit-reversed bytes follow the header of `buf`.
fn decode_numeric(buf: &[u8]) -> (n: u64)
    requires
        buf@.len() >= 10,
    ensures
        n == spec_u64_from_le_bytes(buf@.subrange(2, 10).map_values(|b: u8| reversed(b))),
{
    let mut raw: Vec<u8> = Vec::new();
    let mut i: usize = 0;
    while i < 8
        invariant
            i <= 8,
            buf@.len() >= 10,
            raw@ == buf@.subrange(2, 2 + i as int).map_values(|b: u8| reversed(b)),
        decreases 8 - i,
    {
        raw.push(swap_bits(buf[2 + i]));
        i += 1;
        assert(raw@ =~= buf@.subrange(2, 2 + i as int).map_values(|b: u8| reversed(b)));
    }
    u64_from_le_bytes(raw.as_slice())
}

impl<'a> PactType<'a> {
    /// Decode a value from the start of `buf`.
    /// Returns the value and the number of bytes read, or the fault's message.
    pub fn decode(buf: &'a [u8]) -> (r: Result<(Self, usize), &'static str>)
        ensures
            match decoded(buf@) {
                Ok(v) => r matches Ok((p, n)) && p@ == v && n == consumed(buf@),
                Err(e) => r matches Err(msg) && msg@ == e.text(),
            },
        decreases buf@.len(),
    {
        // Check type header bytes
        if buf.len() == 0 {
            return Err("missing type ID byte");
        }
        if buf.len() == 1 {
            return Err("missing type length byte");
        }
        // 1 byte type ID + 1 byte length gives 2 offset
        let mut read_offset: usize = 2;

        // Read length byte
        let data_length: usize = swap_bits(buf[1]) as usize;
        if data_length > buf.len() - read_offset {
            return Err("type length > buffer length");
        }
        // Read type ID byte
        let id: u8 = swap_bits(buf[0]);
        if id == 0 {
            let read_length: usize = read_offset + data_length;
            let s = PactType::StringLike(StringLike(slice_subrange(buf, read_offset, read_length)));
            Ok((s, read_length))
        } else if id == 1 {
            if data_length != 8 {
                return Err("implementation only supports 64-bit numerics");
            }
            let n = PactType::Numeric(Numeric(decode_numeric(buf)));
            Ok((n, 10))
        } else if id == 2 {
            let mut values: Vec<PactType<'a>> = Vec::new();
            let mut remaining_length: usize = data_length;
            while remaining_length > 0
                invariant
                    header(buf@) == Ok::<nat, Malformed>(data_length as nat),
                    reversed(buf@[0]) == 2,
                    2 <= read_offset <= buf@.len(),
                    remaining_length <= buf@.len() - read_offset,
                    read_offset + remaining_length == 2 + data_length,
                    decoded_items(buf@.skip(2), data_length as nat) == prepended(
                        views(values@),
                        decoded_items(buf@.skip(read_offset as int), remaining_length as nat),
                    ),
                decreases remaining_length,
            {
                let rest = slice_subrange(buf, read_offset, buf.len());
                assert(rest@ =~= buf@.skip(read_offset as int));
                let ghost before = views(values@);
                proof {
                    lemma_items_unfold(rest@, remaining_length as nat);
                }
                match Self::decode(rest) {
                    Err(e) => {
                        return Err(e);
                    },
                    Ok((new_value, offset)) => {
                        if offset > remaining_length {
                            return Err("list length overflow");
                        }
                        read_offset = read_offset + offset;
                        remaining_length = remaining_length - offset;
                        values.push(new_value);
                        proof {
                            assert(rest@.skip(offset as int) =~= buf@.skip(read_offset as int));
                            assert(views(values@) =~= before + seq![new_value@]);
                            let tail = decoded_items(
                                buf@.skip(read_offset as int),
                                remaining_length as nat,
                            );
                            if let Ok(l) = tail {
                                assert(before + (seq![new_value@] + l) =~= views(values@) + l);
                            }
                        }
                    },
                }
            }
            proof {
                lemma_list_view(values);
                assert(views(values@) + Seq::<Value>::empty() =~= views(values@));
            }
            Ok((PactType::List(values), read_offset))
        } else {
            Err("unsupported type ID")
        }
    }

    /// Encode the value onto the end of `buf`.
    pub fn encode(&self, buf: &mut Vec<u8>)
        ensures
            final(buf)@ == old(buf)@ + encoded(self@),
    {
        match self {
            PactType::StringLike(s) => encode_string(s.0, buf),
            PactType::Numeric(n) => encode_numeric(n.0, buf),
            PactType::List(l) => {
                let mut buf_elements: Vec<u8> = Vec::new();
                let ghost items = self@->List_0;
                proof {
                    lemma_list_view(*l);
                }
                let mut i: usize = 0;
                while i < l.len()
                    invariant
                        i <= l.len(),
                        items.len() == l.len(),
                        forall|k: int| 0 <= k < l.len() ==> items[k] == l[k]@,
                        buf_elements@ == encoded_elements(items.take(i as int)),
                    decreases l.len() - i,
                {
                    match &l[i] {
                        PactType::StringLike(s) => encode_string(s.0, &mut buf_elements),
                        PactType::Numeric(n) => encode_numeric(n.0, &mut buf_elements),
                        PactType::List(_) => {},  // element not supported
                    }
                    proof {
                        assert(items.take(i + 1).drop_last() =~= items.take(i as int));
                        assert(items.take(i + 1).last() == l[i as int]@);
                    }
                    i += 1;
                }
                assert(items.take(i as int) =~= items);
                buf.push(swap_bits(2));
                buf.push(swap_bits((buf_elements.len() % 256) as u8));
                buf.append(&mut buf_elements);
                assert(buf@ =~= old(buf)@ + encoded(self@));
            },
        }
    }
}

} // verus!
