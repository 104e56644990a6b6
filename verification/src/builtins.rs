//! The builtins of the language: the names that every contract can use
//! without declaring them.

use vstd::prelude::*;

verus! {

/// A compiler builtin.
#[derive(Clone, Copy, Debug, PartialEq, Eq, Hash, Structural)]
pub enum Builtin {
    /// `blockhash(uint)`
    Blockhash,
    /// `blobhash(uint)`
    Blobhash,
    /// `assert(bool)`
    Assert,
    /// `require(bool)`
    Require,
    /// `revert()`
    Revert,
    /// `revert(string)`
    RevertMsg,
    /// `addmod(uint, uint, uint)`
    AddMod,
    /// `mulmod(uint, uint, uint)`
    MulMod,
    /// `keccak256(bytes)`
    Keccak256,
    /// `sha256(bytes)`
    Sha256,
    /// `ripemd160(bytes)`
    Ripemd160,
    /// `ecrecover(bytes32, uint8, bytes32, bytes32)`
    EcRecover,
    /// `block`
    Block,
    /// `msg`
    Msg,
    /// `tx`
    Tx,
    /// `abi`
    Abi,
    /// `this`
    This,
    /// `super`
    Super,
    /// `block.coinbase`
    BlockCoinbase,
    /// `block.timestamp`
    BlockTimestamp,
    /// `block.difficulty`
    BlockDifficulty,
    /// `block.prevrandao`
    BlockPrevrandao,
    /// `block.number`
    BlockNumber,
    /// `block.gaslimit`
    BlockGaslimit,
    /// `block.chainid`
    BlockChainid,
    /// `block.basefee`
    BlockBasefee,
    /// `block.blobbasefee`
    BlockBlobbasefee,
    /// `msg.sender`
    MsgSender,
    /// `msg.gas`
    MsgGas,
    /// `msg.value`
    MsgValue,
    /// `msg.data`
    MsgData,
    /// `msg.sig`
    MsgSig,
    /// `tx.origin`
    TxOrigin,
    /// `tx.gasprice`
    TxGasPrice,
    /// `abi.encode`
    AbiEncode,
    /// `abi.encodePacked`
    AbiEncodePacked,
    /// `abi.encodeWithSelector`
    AbiEncodeWithSelector,
    /// `abi.encodeCall`
    AbiEncodeCall,
    /// `abi.encodeWithSignature`
    AbiEncodeWithSignature,
    /// `abi.decode`
    AbiDecode,
    /// `balance` of an address
    AddressBalance,
    /// `code` of an address
    AddressCode,
    /// `codehash` of an address
    AddressCodehash,
    /// `call` of an address
    AddressCall,
    /// `delegatecall` of an address
    AddressDelegatecall,
    /// `staticcall` of an address
    AddressStaticcall,
    /// `transfer` of a payable address
    AddressPayableTransfer,
    /// `send` of a payable address
    AddressPayableSend,
    /// `length` of a fixed-size byte array
    FixedBytesLength,
    /// `length` of an array
    ArrayLength,
    /// `selector` of an error
    ErrorSelector,
    /// `selector` of an event
    EventSelector,
    /// `type(C).creationCode`
    ContractCreationCode,
    /// `type(C).runtimeCode`
    ContractRuntimeCode,
    /// `type(C).name`
    ContractName,
    /// `type(I).interfaceId`
    InterfaceId,
    /// `type(T).min`
    TypeMin,
    /// `type(T).max`
    TypeMax,
    /// `wrap` of a user-defined value type
    UdvtWrap,
    /// `unwrap` of a user-defined value type
    UdvtUnwrap,
    /// `string.concat`
    StringConcat,
    /// `bytes.concat`
    BytesConcat,
}

impl Builtin {
    /// The number of builtins.
    pub const COUNT: usize = 62;

    /// The place of the builtin in the order in which they are declared,
    /// counted from 0.
    pub open spec fn index(self) -> nat {
        match self {
            Builtin::Blockhash => 0,
            Builtin::Blobhash => 1,
            Builtin::Assert => 2,
            Builtin::Require => 3,
            Builtin::Revert => 4,
            Builtin::RevertMsg => 5,
            Builtin::AddMod => 6,
            Builtin::MulMod => 7,
            Builtin::Keccak256 => 8,
            Builtin::Sha256 => 9,
            Builtin::Ripemd160 => 10,
            Builtin::EcRecover => 11,
            Builtin::Block => 12,
            Builtin::Msg => 13,
            Builtin::Tx => 14,
            Builtin::Abi => 15,
            Builtin::This => 16,
            Builtin::Super => 17,
            Builtin::BlockCoinbase => 18,
            Builtin::BlockTimestamp => 19,
            Builtin::BlockDifficulty => 20,
            Builtin::BlockPrevrandao => 21,
            Builtin::BlockNumber => 22,
            Builtin::BlockGaslimit => 23,
            Builtin::BlockChainid => 24,
            Builtin::BlockBasefee => 25,
            Builtin::BlockBlobbasefee => 26,
            Builtin::MsgSender => 27,
            Builtin::MsgGas => 28,
            Builtin::MsgValue => 29,
            Builtin::MsgData => 30,
            Builtin::MsgSig => 31,
            Builtin::TxOrigin => 32,
            Builtin::TxGasPrice => 33,
            Builtin::AbiEncode => 34,
            Builtin::AbiEncodePacked => 35,
            Builtin::AbiEncodeWithSelector => 36,
            Builtin::AbiEncodeCall => 37,
            Builtin::AbiEncodeWithSignature => 38,
            Builtin::AbiDecode => 39,
            Builtin::AddressBalance => 40,
            Builtin::AddressCode => 41,
            Builtin::AddressCodehash => 42,
            Builtin::AddressCall => 43,
            Builtin::AddressDelegatecall => 44,
            Builtin::AddressStaticcall => 45,
            Builtin::AddressPayableTransfer => 46,
            Builtin::AddressPayableSend => 47,
            Builtin::FixedBytesLength => 48,
            Builtin::ArrayLength => 49,
            Builtin::ErrorSelector => 50,
            Builtin::EventSelector => 51,
            Builtin::ContractCreationCode => 52,
            Builtin::ContractRuntimeCode => 53,
            Builtin::ContractName => 54,
            Builtin::InterfaceId => 55,
            Builtin::TypeMin => 56,
            Builtin::TypeMax => 57,
            Builtin::UdvtWrap => 58,
            Builtin::UdvtUnwrap => 59,
            Builtin::StringConcat => 60,
            Builtin::BytesConcat => 61,
        }
    }

    /// The global builtins, in order.
    pub open spec fn spec_global() -> Seq<Builtin> {
        seq![
            Builtin::Blockhash,
            Builtin::Blobhash,
            Builtin::Assert,
            Builtin::Require,
            Builtin::Revert,
            Builtin::RevertMsg,
            Builtin::AddMod,
            Builtin::MulMod,
            Builtin::Keccak256,
            Builtin::Sha256,
            Builtin::Ripemd160,
            Builtin::EcRecover,
            Builtin::Block,
            Builtin::Msg,
            Builtin::Tx,
            Builtin::Abi,
        ]
    }

    /// The members of a builtin, in order; `None` for one that has none.
    pub open spec fn spec_inner(self) -> Option<Seq<Builtin>> {
        match self {
            Builtin::Block => Some(
                seq![
                    Builtin::BlockCoinbase,
                    Builtin::BlockTimestamp,
                    Builtin::BlockDifficulty,
                    Builtin::BlockPrevrandao,
                    Builtin::BlockNumber,
                    Builtin::BlockGaslimit,
                    Builtin::BlockChainid,
                    Builtin::BlockBasefee,
                    Builtin::BlockBlobbasefee,
                ],
            ),
            Builtin::Msg => Some(
                seq![
                    Builtin::MsgSender,
                    Builtin::MsgGas,
                    Builtin::MsgValue,
                    Builtin::MsgData,
                    Builtin::MsgSig,
                ],
            ),
            Builtin::Tx => Some(
                seq![
                    Builtin::TxOrigin,
                    Builtin::TxGasPrice,
                ],
            ),
            Builtin::Abi => Some(
                seq![
                    Builtin::AbiEncode,
                    Builtin::AbiEncodePacked,
                    Builtin::AbiEncodeWithSelector,
                    Builtin::AbiEncodeCall,
                    Builtin::AbiEncodeWithSignature,
                    Builtin::AbiDecode,
                ],
            ),
            _ => None,
        }
    }

    /// Returns all builtins, in the order in which they are declared: each
    /// of them once, at the place that is its index.
    pub fn iter() -> (all: Vec<Builtin>)
        ensures
            all@.len() == Builtin::COUNT,
            forall|i: int| 0 <= i < all@.len() ==> (#[trigger] all@[i]).index() == i,
            forall|builtin: Builtin| all@[#[trigger] builtin.index() as int] == builtin,
    {
        let mut all: Vec<Builtin> = Vec::new();
        for i in 0..Builtin::COUNT
            invariant
                all@.len() == i,
                forall|j: int| 0 <= j < all@.len() ==> (#[trigger] all@[j]).index() == j,
        {
            all.push(Builtin::from_index(i).unwrap());
        }
        all
    }

    /// Returns the builtin at the given place in the order in which they are
    /// declared; `None` if there are not that many.
    fn from_index(i: usize) -> (found: Option<Builtin>)
        ensures
            i < Builtin::COUNT ==> found is Some && found->0.index() == i,
            i >= Builtin::COUNT ==> found is None,
    {
        match i {
            0 => Some(Builtin::Blockhash),
            1 => Some(Builtin::Blobhash),
            2 => Some(Builtin::Assert),
            3 => Some(Builtin::Require),
            4 => Some(Builtin::Revert),
            5 => Some(Builtin::RevertMsg),
            6 => Some(Builtin::AddMod),
            7 => Some(Builtin::MulMod),
            8 => Some(Builtin::Keccak256),
            9 => Some(Builtin::Sha256),
            10 => Some(Builtin::Ripemd160),
            11 => Some(Builtin::EcRecover),
            12 => Some(Builtin::Block),
            13 => Some(Builtin::Msg),
            14 => Some(Builtin::Tx),
            15 => Some(Builtin::Abi),
            16 => Some(Builtin::This),
            17 => Some(Builtin::Super),
            18 => Some(Builtin::BlockCoinbase),
            19 => Some(Builtin::BlockTimestamp),
            20 => Some(Builtin::BlockDifficulty),
            21 => Some(Builtin::BlockPrevrandao),
            22 => Some(Builtin::BlockNumber),
            23 => Some(Builtin::BlockGaslimit),
            24 => Some(Builtin::BlockChainid),
            25 => Some(Builtin::BlockBasefee),
            26 => Some(Builtin::BlockBlobbasefee),
            27 => Some(Builtin::MsgSender),
            28 => Some(Builtin::MsgGas),
            29 => Some(Builtin::MsgValue),
            30 => Some(Builtin::MsgData),
            31 => Some(Builtin::MsgSig),
            32 => Some(Builtin::TxOrigin),
            33 => Some(Builtin::TxGasPrice),
            34 => Some(Builtin::AbiEncode),
            35 => Some(Builtin::AbiEncodePacked),
            36 => Some(Builtin::AbiEncodeWithSelector),
            37 => Some(Builtin::AbiEncodeCall),
            38 => Some(Builtin::AbiEncodeWithSignature),
            39 => Some(Builtin::AbiDecode),
            40 => Some(Builtin::AddressBalance),
            41 => Some(Builtin::AddressCode),
            42 => Some(Builtin::AddressCodehash),
            43 => Some(Builtin::AddressCall),
            44 => Some(Builtin::AddressDelegatecall),
            45 => Some(Builtin::AddressStaticcall),
            46 => Some(Builtin::AddressPayableTransfer),
            47 => Some(Builtin::AddressPayableSend),
            48 => Some(Builtin::FixedBytesLength),
            49 => Some(Builtin::ArrayLength),
            50 => Some(Builtin::ErrorSelector),
            51 => Some(Builtin::EventSelector),
            52 => Some(Builtin::ContractCreationCode),
            53 => Some(Builtin::ContractRuntimeCode),
            54 => Some(Builtin::ContractName),
            55 => Some(Builtin::InterfaceId),
            56 => Some(Builtin::TypeMin),
            57 => Some(Builtin::TypeMax),
            58 => Some(Builtin::UdvtWrap),
            59 => Some(Builtin::UdvtUnwrap),
            60 => Some(Builtin::StringConcat),
            61 => Some(Builtin::BytesConcat),
            _ => None,
        }
    }

    /// Returns the global builtins.
    pub fn global() -> (list: &'static [Builtin])
        ensures
            list@ == Builtin::spec_global(),
    {
        &[
            Builtin::Blockhash,
            Builtin::Blobhash,
            Builtin::Assert,
            Builtin::Require,
            Builtin::Revert,
            Builtin::RevertMsg,
            Builtin::AddMod,
            Builtin::MulMod,
            Builtin::Keccak256,
            Builtin::Sha256,
            Builtin::Ripemd160,
            Builtin::EcRecover,
            Builtin::Block,
            Builtin::Msg,
            Builtin::Tx,
            Builtin::Abi,
        ]
    }

    /// Returns the inner builtins.
    pub fn inner(self) -> (list: Option<&'static [Builtin]>)
        ensures
            match list {
                Some(members) => self.spec_inner() == Some(members@),
                None => self.spec_inner() is None,
            },
    {
        Some(
            match self {
                Builtin::Block => &[
                    Builtin::BlockCoinbase,
                    Builtin::BlockTimestamp,
                    Builtin::BlockDifficulty,
                    Builtin::BlockPrevrandao,
                    Builtin::BlockNumber,
                    Builtin::BlockGaslimit,
                    Builtin::BlockChainid,
                    Builtin::BlockBasefee,
                    Builtin::BlockBlobbasefee,
                ],
                Builtin::Msg => &[
                    Builtin::MsgSender,
                    Builtin::MsgGas,
                    Builtin::MsgValue,
                    Builtin::MsgData,
                    Builtin::MsgSig,
                ],
                Builtin::Tx => &[
                    Builtin::TxOrigin,
                    Builtin::TxGasPrice,
                ],
                Builtin::Abi => &[
                    Builtin::AbiEncode,
                    Builtin::AbiEncodePacked,
                    Builtin::AbiEncodeWithSelector,
                    Builtin::AbiEncodeCall,
                    Builtin::AbiEncodeWithSignature,
                    Builtin::AbiDecode,
                ],
                _ => {
                    return None;
                },
            },
        )
    }
}

} // verus!
