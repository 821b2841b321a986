//! A compiled contract and its versioned binary format.

use crate::types::base::{Malformed, Value};
use crate::types::bits::{reversed, swap_bits};
use crate::types::data_table::{decoded_table, encoded_table, DataTable};
use vstd::prelude::*;
use vstd::slice::{slice_subrange, slice_to_vec};

verus! {

/// A binary format error.
#[derive(Debug, PartialEq)]
pub enum BinaryFormatErr {
    /// Version mismatch
    UnsupportedVersion,
    /// DataTable is invalid
    MalformedDataTable(&'static str),
    /// The buffer is too short to be valid
    TooShort,
}

/// A contract: byte code and the data table it refers to.
#[derive(Debug, PartialEq)]
pub struct Contract<'a> {
    pub data_table: DataTable<'a>,
    pub bytecode: Vec<u8>,
}

/// What a contract holds, as mathematical values.
pub ghost struct ContractView {
    pub data_table: Seq<Value>,
    pub bytecode: Seq<u8>,
}

impl<'a> View for Contract<'a> {
    type V = ContractView;

    open spec fn view(&self) -> ContractView {
        ContractView { data_table: self.data_table@, bytecode: self.bytecode@ }
    }
}

/// Why a run of bytes is not a contract in the binary format.
pub ghost enum FormatFault {
    UnsupportedVersion,
    MalformedDataTable(Malformed),
    TooShort,
}

/// The binary format of a contract: the version byte 0, the data table, and
/// the byte code as it is.
pub open spec fn encoded_contract(c: ContractView) -> Seq<u8> {
    seq![0u8] + encoded_table(c.data_table) + c.bytecode
}

/// The contract that `buf` holds in the binary format.
pub open spec fn decoded_contract(buf: Seq<u8>) -> Result<ContractView, FormatFault> {
    if buf.len() < 2 {
        Err(FormatFault::TooShort)
    } else if reversed(buf[0]) != 0 {
        Err(FormatFault::UnsupportedVersion)
    } else {
        match decoded_table(buf.skip(1)) {
            Err(e) => Err(FormatFault::MalformedDataTable(e)),
            Ok((t, n)) => Ok(ContractView { data_table: t, bytecode: buf.skip(1 + n as int) }),
        }
    }
}

impl<'a> Contract<'a> {
    /// Encode the contract in the binary format onto the end of `buf`.
    pub fn encode(&self, buf: &mut Vec<u8>)
        ensures
            final(buf)@ == old(buf)@ + encoded_contract(self@),
    {
        buf.push(0);  // binary format version: `0`
        self.data_table.encode(buf);
        buf.extend_from_slice(self.bytecode.as_slice());
        assert(buf@ =~= old(buf)@ + encoded_contract(self@));
    }

    /// Decode a contract from the binary format.
    pub fn decode(buf: &'a [u8]) -> (r: Result<Self, BinaryFormatErr>)
        ensures
            match decoded_contract(buf@) {
                Ok(c) => r matches Ok(contract) && contract@ == c,
                Err(FormatFault::TooShort) => r == Err::<Self, _>(BinaryFormatErr::TooShort),
                Err(FormatFault::UnsupportedVersion) => r == Err::<Self, _>(
                    BinaryFormatErr::UnsupportedVersion,
                ),
                Err(FormatFault::MalformedDataTable(e)) => r matches Err(
                    BinaryFormatErr::MalformedDataTable(msg),
                ) && msg@ == e.text(),
            },
    {
        if buf.len() < 2 {
            return Err(BinaryFormatErr::TooShort);
        }
        if swap_bits(buf[0]) != 0 {
            return Err(BinaryFormatErr::UnsupportedVersion);
        }
        let rest = slice_subrange(buf, 1, buf.len());
        assert(rest@ =~= buf@.skip(1));
        match DataTable::decode(rest) {
            Err(err) => Err(BinaryFormatErr::MalformedDataTable(err)),
            Ok((data_table, offset)) => {
                let bytecode = slice_to_vec(slice_subrange(buf, 1 + offset, buf.len()));
                assert(bytecode@ =~= buf@.skip(1 + offset));
                Ok(Contract { data_table, bytecode })
            },
        }
    }
}

} // verus!
