//! The table of constants that a contract carries.

use crate::types::base::{consumed, decoded, encoded, length_byte, views, Malformed, PactType, Value};
use crate::types::bits::{reversed, swap_bits};
use vstd::prelude::*;
use vstd::slice::slice_subrange;

verus! {

/// A contract's static data table.
#[derive(Debug, PartialEq)]
pub struct DataTable<'a>(Vec<PactType<'a>>);

impl<'a> View for DataTable<'a> {
    type V = Seq<Value>;

    closed spec fn view(&self) -> Seq<Value> {
        views(self.0@)
    }
}

/// The encodings of the values of `l`, one after another.
pub open spec fn encoded_values(l: Seq<Value>) -> Seq<u8>
    decreases l.len(),
{
    if l.len() == 0 {
        Seq::empty()
    } else {
        encoded_values(l.drop_last()) + encoded(l.last())
    }
}

/// Encoding of a table: the length byte of its count, bit-reversed, then its
/// values.
pub open spec fn encoded_table(t: Seq<Value>) -> Seq<u8> {
    seq![reversed(length_byte(t.len()))] + encoded_values(t)
}

/// The first `count` values encoded in `rest`, and the bytes they take.
pub open spec fn decoded_values(rest: Seq<u8>, count: nat) -> Result<(Seq<Value>, nat), Malformed>
    decreases count,
{
    if count == 0 {
        Ok((Seq::empty(), 0nat))
    } else {
        match decoded(rest) {
            Err(e) => Err(e),
            Ok(v) => match decoded_values(rest.skip(consumed(rest) as int), (count - 1) as nat) {
                Err(e) => Err(e),
                Ok((l, n)) => Ok((seq![v] + l, consumed(rest) + n)),
            },
        }
    }
}

/// The table encoded at the start of `buf`, and the bytes it takes with its
/// count byte.
pub open spec fn decoded_table(buf: Seq<u8>) -> Result<(Seq<Value>, nat), Malformed> {
    match decoded_values(buf.skip(1), reversed(buf[0]) as nat) {
        Err(e) => Err(e),
        Ok((l, n)) => Ok((l, 1 + n)),
    }
}

impl<'a> DataTable<'a> {
    /// Create a new `DataTable` with `values`.
    pub fn new(values: Vec<PactType<'a>>) -> (t: Self)
        ensures
            t@ == views(values@),
    {
        DataTable(values)
    }

    /// Push a value onto the end of the table.
    pub fn push(&mut self, val: PactType<'a>)
        ensures
            final(self)@ == old(self)@.push(val@),
    {
        self.0.push(val);
        assert(views(self.0@) =~= views(old(self).0@).push(val@));
    }

    /// Encode the data table onto the end of `buf`.
    pub fn encode(&self, buf: &mut Vec<u8>)
        ensures
            final(buf)@ == old(buf)@ + encoded_table(self@),
    {
        buf.push(swap_bits((self.0.len() % 256) as u8));
        let ghost head = buf@;
        let mut i: usize = 0;
        while i < self.0.len()
            invariant
                i <= self.0.len(),
                buf@ == head + encoded_values(self@.take(i as int)),
            decreases self.0.len() - i,
        {
            self.0[i].encode(buf);
            proof {
                assert(self@.take(i + 1).drop_last() =~= self@.take(i as int));
                assert(self@.take(i + 1).last() == self.0[i as int]@);
            }
            i += 1;
        }
        assert(self@.take(i as int) =~= self@);
        assert(buf@ =~= old(buf)@ + encoded_table(self@));
    }

    /// Decode a data table from the start of `buf`.
    /// Returns the table and the number of bytes read, or the fault's message.
    pub fn decode(buf: &'a [u8]) -> (r: Result<(Self, usize), &'static str>)
        requires
            buf@.len() >= 1,
        ensures
            match decoded_table(buf@) {
                Ok((t, n)) => r matches Ok((table, read)) && table@ == t && read == n && n <= buf@.len(),
                Err(e) => r matches Err(msg) && msg@ == e.text(),
            },
    {
        let mut table = DataTable(Vec::new());
        let mut offset: usize = 1;
        let l: u8 = swap_bits(buf[0]);
        let mut i: u8 = 0;
        while i < l
            invariant
                i <= l,
                l == reversed(buf@[0]),
                1 <= offset <= buf@.len(),
                decoded_values(buf@.skip(1), l as nat) == joined(
                    table@,
                    (offset - 1) as nat,
                    decoded_values(buf@.skip(offset as int), (l - i) as nat),
                ),
            decreases l - i,
        {
            let rest = slice_subrange(buf, offset, buf.len());
            assert(rest@ =~= buf@.skip(offset as int));
            let ghost before = table@;
            match PactType::decode(rest) {
                Err(e) => {
                    return Err(e);
                },
                Ok((pact_type, read)) => {
                    table.push(pact_type);
                    offset += read;
                    proof {
                        assert(rest@.skip(read as int) =~= buf@.skip(offset as int));
                        let tail = decoded_values(buf@.skip(offset as int), (l - i - 1) as nat);
                        if let Ok((s, n)) = tail {
                            assert(before + (seq![pact_type@] + s) =~= table@ + s);
                        }
                    }
                },
            }
            i += 1;
        }
        assert(table@ + Seq::<Value>::empty() =~= table@);
        Ok((table, offset))
    }
}

impl<'a> AsRef<[PactType<'a>]> for DataTable<'a> {
    /// The values of the table, in order.
    fn as_ref(&self) -> (r: &[PactType<'a>])
        ensures
            views(r@) == self@,
    {
        self.0.as_slice()
    }
}

/// `tail` with `head` put in front of its values and `n` added to its count
/// of bytes, where it has any.
pub open spec fn joined(head: Seq<Value>, n: nat, tail: Result<(Seq<Value>, nat), Malformed>)
    -> Result<(Seq<Value>, nat), Malformed> {
    match tail {
        Ok((l, m)) => Ok((head + l, n + m)),
        Err(e) => Err(e),
    }
}

} // verus!
