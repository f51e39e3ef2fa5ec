use std::str::FromStr;

use tari_dan_models::common::{Epoch, Network, PublicKey, Shard};
use tari_dan_models::epoch_ending::{EpochEndAction, EpochEnding};
use tari_dan_models::generators::{GeneratorType, LiquidGeneratorOpts};
use tari_dan_models::hash::{to_hex, FixedHash};
use tari_dan_models::instruction::{
    Arg, CommitmentSignature, ComponentAddress, Instruction, LogLevel, MerkleProof, TemplateAddress,
};

#[test]
fn generator_type_parses_its_name_only() {
    assert_eq!(GeneratorType::from_str("rust-template-cli").unwrap(), GeneratorType::RustTemplateCli);
    let err = GeneratorType::from_str("rust-template").unwrap_err();
    assert_eq!(err.message(), "Invalid generator type");
    assert!(GeneratorType::from_str("").is_err());
    assert!(GeneratorType::from_str("Rust-template-cli").is_err());
}

#[test]
fn liquid_options_default() {
    let opts = LiquidGeneratorOpts::default();
    assert!(!opts.skip_format);
    assert!(opts.variables.is_empty());
}

#[test]
fn hex_rendering() {
    assert_eq!(to_hex(&[0x00, 0x0f, 0xa0, 0xff]), "000fa0ff");
    assert_eq!(to_hex(&[]), "");
    assert_eq!(FixedHash([0x12; 32]).to_hex(), "12".repeat(32));
}

#[test]
fn fixed_hash_basics() {
    assert!(FixedHash::zero().is_zero());
    assert!(!FixedHash([0, 1, 0, 0, 0, 0, 0, 0, 0, 0, 0, 0, 0, 0, 0, 0, 0, 0, 0, 0, 0, 0, 0, 0, 0, 0, 0, 0, 0, 0, 0, 0]).is_zero());
    assert_eq!(FixedHash::byte_size(), 32);
    assert_eq!(FixedHash([3; 32]), FixedHash([3; 32]));
    assert_ne!(FixedHash([3; 32]), FixedHash([4; 32]));
}

#[test]
fn network_bytes() {
    assert_eq!(Network::MainNet.as_byte(), 0x00);
    assert_eq!(Network::StageNet.as_byte(), 0x01);
    assert_eq!(Network::NextNet.as_byte(), 0x02);
    assert_eq!(Network::LocalNet.as_byte(), 0x10);
    assert_eq!(Network::Igor.as_byte(), 0x24);
    assert_eq!(Network::Esmeralda.as_byte(), 0x26);
}

#[test]
fn epoch_ending_values() {
    let a = EpochEnding { epoch: Epoch(5), action: EpochEndAction::SplitInTwo { shard_a: Shard(1), shard_b: Shard(2) } };
    let b = a.clone();
    assert_eq!(a, b);
    assert_ne!(a, EpochEnding { epoch: Epoch(5), action: EpochEndAction::ContinueWithCurrentShard });
    assert_ne!(
        EpochEndAction::MergeIntoShard { shard: Shard(1) },
        EpochEndAction::MergeIntoShard { shard: Shard(2) }
    );
}

fn call(function: &str) -> Instruction {
    Instruction::CallFunction {
        template_address: TemplateAddress(FixedHash([1; 32])),
        function: function.to_string(),
        args: vec![Arg::Literal(vec![1, 2, 3]), Arg::Workspace(b"x".to_vec())],
    }
}

#[test]
fn instruction_encoding_layout() {
    let i = Instruction::PutLastInstructionOutputOnWorkspace { key: vec![9, 8] };
    assert_eq!(i.encode(), vec![2, 2, 0, 0, 0, 0, 0, 0, 0, 9, 8]);
    let log = Instruction::EmitLog { level: LogLevel::Warn, message: "é".to_string() };
    assert_eq!(log.encode(), vec![3, 1, 1, 0, 0, 0, 0, 0, 0, 0, 0xe9, 0, 0, 0]);
    let enc = call("mint").encode();
    assert_eq!(enc[0], 0);
    assert_eq!(&enc[1..33], &[1u8; 32][..]);
    assert_eq!(&enc[33..41], &[4, 0, 0, 0, 0, 0, 0, 0][..]);
    assert_eq!(&enc[41..45], &[b'm', 0, 0, 0][..]);
}

#[test]
fn instruction_hash_depends_on_contents() {
    assert_eq!(call("mint").hash(), call("mint").hash());
    assert_ne!(call("mint").hash(), call("burn").hash());
    let utxo = Instruction::ImportUtxo {
        commitment: PublicKey([4; 32]),
        proof_of_knowledge: CommitmentSignature { public_nonce: [1; 32], u: [2; 32], v: [3; 32] },
        proof_of_existence: MerkleProof { mmr_size: 3, path: vec![FixedHash([5; 32])], peaks: vec![] },
    };
    assert_eq!(utxo.encode().len(), 1 + 32 * 4 + 8 + 8 + 32 + 8);
    assert_ne!(utxo.hash(), call("mint").hash());
    let method = Instruction::CallMethod {
        component_address: ComponentAddress(FixedHash([1; 32])),
        method: "mint".to_string(),
        args: vec![Arg::Literal(vec![1, 2, 3]), Arg::Workspace(b"x".to_vec())],
    };
    assert_ne!(method.hash(), call("mint").hash());
}

#[test]
fn instruction_hash_is_blake2b_of_label_and_encoding() {
    let log = Instruction::EmitLog { level: LogLevel::Info, message: "hi".to_string() };
    assert_eq!(log.hash().to_hex(), "a70171c4c003766de3164c7c9ed3f07ce8d4e285fa9407fa8082232cdd30100c");
}

#[test]
fn instruction_display_shows_fields() {
    let hex01 = "01".repeat(32);
    assert_eq!(
        call("mint").to_display_string(),
        format!(
            "CallFunction {{ template_address: {}, function: mint, args: [Literal([1, 2, 3]), Workspace([120])] }}",
            hex01
        )
    );
    let method = Instruction::CallMethod {
        component_address: ComponentAddress(FixedHash([1; 32])),
        method: "burn".to_string(),
        args: vec![],
    };
    assert_eq!(
        method.to_display_string(),
        format!("CallMethod {{ component_address: component_{}, method: burn, args: [] }}", hex01)
    );
    let put = Instruction::PutLastInstructionOutputOnWorkspace { key: vec![9, 8] };
    assert_eq!(put.to_display_string(), "PutLastInstructionOutputOnWorkspace { key: [9, 8] }");
    let log = Instruction::EmitLog { level: LogLevel::Warn, message: "say \"hi\"".to_string() };
    assert_eq!(log.to_display_string(), "EmitLog { level: Warn, message: \"say \\\"hi\\\"\" }");
    let utxo = Instruction::ImportUtxo {
        commitment: PublicKey([4; 32]),
        proof_of_knowledge: CommitmentSignature { public_nonce: [1; 32], u: [2; 32], v: [3; 32] },
        proof_of_existence: MerkleProof { mmr_size: 3, path: vec![], peaks: vec![] },
    };
    let shown = utxo.to_display_string();
    assert!(shown.starts_with("ImportUtxo { commitment: PublicKey([4, 4,"));
    assert!(shown.contains(", proof_of_knowledge: CommitmentSignature { public_nonce: [1, 1,"));
    assert!(shown.ends_with(", proof_of_existence: MerkleProof { mmr_size: 3, path: [], peaks: [] } }"));
}

#[test]
fn log_level_names() {
    assert_eq!(LogLevel::Error.name(), "Error");
    assert_eq!(LogLevel::Warn.name(), "Warn");
    assert_eq!(LogLevel::Info.name(), "Info");
    assert_eq!(LogLevel::Debug.name(), "Debug");
}
