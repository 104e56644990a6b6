use solidity_lexer::builtins::Builtin;

#[test]
fn iter_gives_every_builtin_once() {
    let all = Builtin::iter();
    assert_eq!(all.len(), Builtin::COUNT);
    assert_eq!(all.len(), 62);
    for (i, a) in all.iter().enumerate() {
        for (j, b) in all.iter().enumerate() {
            assert_eq!(a == b, i == j);
        }
    }
}

#[test]
fn iter_follows_the_declaration_order() {
    let all = Builtin::iter();
    assert_eq!(all[0], Builtin::Blockhash);
    assert_eq!(all[1], Builtin::Blobhash);
    assert_eq!(all[15], Builtin::Abi);
    assert_eq!(all[16], Builtin::This);
    assert_eq!(all[17], Builtin::Super);
    assert_eq!(all[18], Builtin::BlockCoinbase);
    assert_eq!(all[26], Builtin::BlockBlobbasefee);
    assert_eq!(all[27], Builtin::MsgSender);
    assert_eq!(all[32], Builtin::TxOrigin);
    assert_eq!(all[34], Builtin::AbiEncode);
    assert_eq!(all[39], Builtin::AbiDecode);
    assert_eq!(all[40], Builtin::AddressBalance);
    assert_eq!(all[48], Builtin::FixedBytesLength);
    assert_eq!(all[57], Builtin::TypeMax);
    assert_eq!(all[60], Builtin::StringConcat);
    assert_eq!(all[61], Builtin::BytesConcat);
}

#[test]
fn global_builtins() {
    assert_eq!(
        Builtin::global(),
        &[
            Builtin::Blockhash,
            Builtin::Blobhash,
            Builtin::Assert,
            Builtin::Require,
            Builtin::Revert,
            Builtin::RevertMsg,
            Builtin::AddMod,
            Builtin::MulMod,
            Builtin::Keccak256,
            Builtin::Sha256,
            Builtin::Ripemd160,
            Builtin::EcRecover,
            Builtin::Block,
            Builtin::Msg,
            Builtin::Tx,
            Builtin::Abi,
        ]
    );
    assert_eq!(Builtin::global(), &Builtin::iter()[..16]);
}

#[test]
fn inner_builtins_of_block() {
    assert_eq!(
        Builtin::Block.inner(),
        Some(
            &[
                Builtin::BlockCoinbase,
                Builtin::BlockTimestamp,
                Builtin::BlockDifficulty,
                Builtin::BlockPrevrandao,
                Builtin::BlockNumber,
                Builtin::BlockGaslimit,
                Builtin::BlockChainid,
                Builtin::BlockBasefee,
                Builtin::BlockBlobbasefee,
            ][..]
        )
    );
}

#[test]
fn inner_builtins_of_msg() {
    assert_eq!(
        Builtin::Msg.inner(),
        Some(
            &[
                Builtin::MsgSender,
                Builtin::MsgGas,
                Builtin::MsgValue,
                Builtin::MsgData,
                Builtin::MsgSig,
            ][..]
        )
    );
}

#[test]
fn inner_builtins_of_tx() {
    assert_eq!(Builtin::Tx.inner(), Some(&[Builtin::TxOrigin, Builtin::TxGasPrice][..]));
}

#[test]
fn inner_builtins_of_abi() {
    assert_eq!(
        Builtin::Abi.inner(),
        Some(
            &[
                Builtin::AbiEncode,
                Builtin::AbiEncodePacked,
                Builtin::AbiEncodeWithSelector,
                Builtin::AbiEncodeCall,
                Builtin::AbiEncodeWithSignature,
                Builtin::AbiDecode,
            ][..]
        )
    );
}

#[test]
fn other_builtins_have_no_inner() {
    for builtin in Builtin::iter() {
        let has_inner = matches!(
            builtin,
            Builtin::Block | Builtin::Msg | Builtin::Tx | Builtin::Abi
        );
        assert_eq!(builtin.inner().is_some(), has_inner);
    }
}

#[test]
fn inner_builtins_are_not_global() {
    for builtin in Builtin::global() {
        if let Some(members) = builtin.inner() {
            for member in members {
                assert!(!Builtin::global().contains(member));
            }
        }
    }
}
