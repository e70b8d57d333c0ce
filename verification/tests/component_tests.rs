//! Tests of the checkpoint list, opcodes, chain parameters, and the
//! transaction-shaped values.

use checkpoint_verifier::block::{Block, BlockHash};
use checkpoint_verifier::checkpoint_list::CheckpointList;
use checkpoint_verifier::queue::{Entry, PendingQueue};
use checkpoint_verifier::error::ListError;
use checkpoint_verifier::opcodes::OpCode;
use checkpoint_verifier::parameters::{
    mainnet_magic, regtest_magic, testnet_magic, BLOSSOM_POW_TARGET_SPACING_RATIO,
    DEFAULT_POST_BLOSSOM_EXPIRY_DELTA, DEFAULT_PRE_BLOSSOM_TX_EXPIRY_DELTA,
    POST_BLOSSOM_POW_TARGET_SPACING, PRE_BLOSSOM_POW_TARGET_SPACING, SLOW_START_INTERVAL,
    SLOW_START_SHIFT,
};
use checkpoint_verifier::transaction::{
    OrchardAction, ScriptPubKey, ScriptSig, ShieldedOutput, ShieldedSpend, TransactionTemplate,
};

fn h(n: u64) -> BlockHash {
    BlockHash::new(n, 0, n, 1)
}

#[test]
fn checkpoint_list_lookups() {
    let list = CheckpointList::new(vec![(5, h(5)), (0, h(0)), (10, h(10))]).expect("valid");
    assert_eq!(list.max_height(), 10);
    assert!(list.contains(0));
    assert!(list.contains(5));
    assert!(!list.contains(3));
    assert_eq!(list.hash_at(5), Some(h(5)));
    assert_eq!(list.hash_at(6), None);
    assert_eq!(list.next_checkpoint_after(0), Some(5));
    assert_eq!(list.next_checkpoint_after(5), Some(10));
    assert_eq!(list.next_checkpoint_after(7), Some(10));
    assert_eq!(list.next_checkpoint_after(10), None);
}

#[test]
fn checkpoint_list_construction_errors() {
    assert_eq!(CheckpointList::new(vec![]).err(), Some(ListError::EmptyList));
    assert_eq!(
        CheckpointList::new(vec![(3, h(3))]).err(),
        Some(ListError::MissingGenesis)
    );
    assert_eq!(
        CheckpointList::new(vec![(0, h(0)), (3, h(3)), (3, h(4))]).err(),
        Some(ListError::DuplicateHeight)
    );
    // a repeated height wins over a missing genesis
    assert_eq!(
        CheckpointList::new(vec![(3, h(3)), (3, h(4))]).err(),
        Some(ListError::DuplicateHeight)
    );
}

#[test]
fn pending_queue_operations() {
    fn entry(height: u32, handle: u64) -> Entry {
        Entry {
            block: Block {
                height,
                hash: BlockHash::new(handle, 0, 0, 2),
                previous_block_hash: BlockHash::new(0, 0, 0, 0),
            },
            handle,
        }
    }
    let mut q = PendingQueue::new();
    assert_eq!(q.len(), 0);
    q.insert(entry(5, 1));
    q.insert(entry(3, 2));
    q.insert(entry(5, 3));
    q.insert(entry(9, 4));
    assert_eq!(q.len(), 4);
    assert!(q.has_height(5));
    assert!(!q.has_height(4));
    assert_eq!(q.heights(), vec![5, 3, 5, 9]);

    // the open-closed range (2, 5] catches heights 3 and 5, in order
    let copied = q.collect_segment(Some(2), 5);
    assert_eq!(copied.len(), 3);
    assert_eq!(q.len(), 4);
    let drained = q.drain_segment(Some(2), 5);
    assert_eq!(drained, copied);
    assert_eq!(drained[0].handle, 1);
    assert_eq!(drained[1].handle, 2);
    assert_eq!(drained[2].handle, 3);
    assert_eq!(q.len(), 1);

    let rest = q.drain_all();
    assert_eq!(rest.len(), 1);
    assert_eq!(rest[0].handle, 4);
    assert_eq!(q.len(), 0);
}

#[test]
fn opcode_byte_values() {
    assert_eq!(OpCode::Equal.byte_value(), 0x87);
    assert_eq!(OpCode::Hash160.byte_value(), 0xa9);
    assert_eq!(OpCode::Push20Bytes.byte_value(), 0x14);
    assert_eq!(OpCode::Dup.byte_value(), 0x76);
    assert_eq!(OpCode::EqualVerify.byte_value(), 0x88);
    assert_eq!(OpCode::CheckSig.byte_value(), 0xac);
}

#[test]
fn chain_constants() {
    assert_eq!(SLOW_START_INTERVAL, 20_000);
    assert_eq!(SLOW_START_SHIFT, 10_000);
    assert_eq!(PRE_BLOSSOM_POW_TARGET_SPACING, 150);
    assert_eq!(POST_BLOSSOM_POW_TARGET_SPACING, 75);
    assert_eq!(BLOSSOM_POW_TARGET_SPACING_RATIO, 2);
    assert_eq!(DEFAULT_PRE_BLOSSOM_TX_EXPIRY_DELTA, 20);
    assert_eq!(DEFAULT_POST_BLOSSOM_EXPIRY_DELTA, 40);
    assert!(PRE_BLOSSOM_POW_TARGET_SPACING % POST_BLOSSOM_POW_TARGET_SPACING == 0);
}

#[test]
fn network_magics() {
    assert_eq!(mainnet_magic().0, [0x24, 0xe9, 0x27, 0x64]);
    assert_eq!(testnet_magic().0, [0xfa, 0x1a, 0xf9, 0xbf]);
    assert_eq!(regtest_magic().0, [0xaa, 0xe8, 0x3f, 0x5f]);
}

#[test]
fn transaction_template_from_coinbase() {
    let data = vec![1u8, 2, 3];
    let tt = TransactionTemplate::from_coinbase(data.clone(), [7u8; 32], [8u8; 32], 5000, 3);
    assert_eq!(tt.data(), &data);
    assert_eq!(tt.hash(), [7u8; 32]);
    assert_eq!(tt.auth_digest(), [8u8; 32]);
    assert!(tt.depends().is_empty());
    assert_eq!(tt.fee(), -5000);
    assert_eq!(tt.sigops(), 3);
    assert!(tt.required());
}

#[test]
fn transaction_template_mempool() {
    let tt = TransactionTemplate::new(vec![9u8], [1u8; 32], [2u8; 32], 1234, 7);
    assert_eq!(tt.fee(), 1234);
    assert_eq!(tt.sigops(), 7);
    assert!(!tt.required());
    assert!(tt.depends().is_empty());
}

#[test]
fn script_renderings() {
    let spk = ScriptPubKey::new(
        String::new(),
        vec![0x76, 0xa9, 0x14],
        Some(1),
        String::new(),
        Some(vec![String::from("t1abc")]),
    );
    assert_eq!(spk.hex(), &vec![0x76u8, 0xa9, 0x14]);
    assert_eq!(spk.req_sigs(), Some(1));
    assert_eq!(spk.addresses().as_ref().map(|a| a.len()), Some(1));
    assert_eq!(spk.assembly().as_str(), "");
    assert_eq!(spk.script_type().as_str(), "");

    let ss = ScriptSig::new(String::new(), vec![0xacu8]);
    assert_eq!(ss.hex(), &vec![0xacu8]);
    assert_eq!(ss.assembly().as_str(), "");
}

#[test]
fn shielded_pieces_round_trip() {
    let spend = ShieldedSpend::new([1u8; 32], [2u8; 32], [3u8; 32], [4u8; 32], [5u8; 192],
        [6u8; 64]);
    assert_eq!(spend.cv(), [1u8; 32]);
    assert_eq!(spend.anchor(), [2u8; 32]);
    assert_eq!(spend.nullifier(), [3u8; 32]);
    assert_eq!(spend.rk(), [4u8; 32]);
    assert_eq!(spend.zkproof(), [5u8; 192]);
    assert_eq!(spend.spend_auth_sig(), [6u8; 64]);

    let output = ShieldedOutput::new([1u8; 32], [2u8; 32], [3u8; 32], [4u8; 580], [5u8; 80],
        [6u8; 192]);
    assert_eq!(output.cv(), [1u8; 32]);
    assert_eq!(output.cm_u(), [2u8; 32]);
    assert_eq!(output.ephemeral_key(), [3u8; 32]);
    assert_eq!(output.enc_ciphertext(), [4u8; 580]);
    assert_eq!(output.out_ciphertext(), [5u8; 80]);
    assert_eq!(output.zkproof(), [6u8; 192]);

    let action = OrchardAction::new([1u8; 32], [2u8; 32], [3u8; 32], [4u8; 32], [5u8; 32],
        [6u8; 580], [7u8; 64], [8u8; 80]);
    assert_eq!(action.cv(), [1u8; 32]);
    assert_eq!(action.nullifier(), [2u8; 32]);
    assert_eq!(action.rk(), [3u8; 32]);
    assert_eq!(action.cm_x(), [4u8; 32]);
    assert_eq!(action.ephemeral_key(), [5u8; 32]);
    assert_eq!(action.enc_ciphertext(), [6u8; 580]);
    assert_eq!(action.spend_auth_sig(), [7u8; 64]);
    assert_eq!(action.out_ciphertext(), [8u8; 80]);
}
