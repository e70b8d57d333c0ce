//! Transaction-shaped values handed to block producers and RPC clients:
//! the template a miner fills in, and the pieces of a rendered
//! transaction object that carry no chain logic of their own.

use vstd::prelude::*;

verus! {

/// Transaction data and fields needed to generate blocks.
#[derive(Clone, Debug, PartialEq, Eq)]
pub struct TransactionTemplate {
    /// The serialized bytes of the transaction.
    pub data: Vec<u8>,
    /// The transaction ID of this transaction.
    pub hash: [u8; 32],
    /// The authorizing data digest of a v5 transaction, or a placeholder
    /// for older versions.
    pub auth_digest: [u8; 32],
    /// The transactions in the block template this one depends upon:
    /// 1-based indexes in the transaction list. Always empty: the
    /// mempool does not support transaction dependencies.
    pub depends: Vec<u16>,
    /// The fee for this transaction, in zatoshis. Non-coinbase
    /// transactions have a non-negative fee; a coinbase transaction
    /// carries the negative sum of the block's fees, so its fee is zero
    /// or negative.
    pub fee: i64,
    /// The number of transparent signature operations in this
    /// transaction.
    pub sigops: u64,
    /// Whether the transaction is required in the block: coinbase
    /// transactions are, all others are not.
    pub required: bool,
}

impl TransactionTemplate {
    /// Builds a non-coinbase template from a mempool transaction's
    /// parts: its fee must be non-negative, it depends on nothing and is
    /// never required.
    pub fn new(data: Vec<u8>, hash: [u8; 32], auth_digest: [u8; 32], fee: i64, sigops: u64) -> (r:
        TransactionTemplate)
        requires
            fee >= 0,
        ensures
            r.data == data,
            r.hash == hash,
            r.auth_digest == auth_digest,
            r.depends@ == Seq::<u16>::empty(),
            r.fee == fee,
            r.sigops == sigops,
            !r.required,
    {
        TransactionTemplate {
            data,
            hash,
            auth_digest,
            depends: Vec::new(),
            fee,
            sigops,
            required: false,
        }
    }

    /// Builds a coinbase template. `miner_fee` is the total miner fee of
    /// the block, excluding newly created rewards; the coinbase carries
    /// its negation, depends on nothing, and is always required.
    pub fn from_coinbase(
        data: Vec<u8>,
        hash: [u8; 32],
        auth_digest: [u8; 32],
        miner_fee: i64,
        legacy_sigop_count: u64,
    ) -> (r: TransactionTemplate)
        requires
            miner_fee >= 0,
        ensures
            r.data == data,
            r.hash == hash,
            r.auth_digest == auth_digest,
            r.depends@ == Seq::<u16>::empty(),
            r.fee == -miner_fee,
            r.sigops == legacy_sigop_count,
            r.required,
    {
        TransactionTemplate {
            data,
            hash,
            auth_digest,
            depends: Vec::new(),
            fee: -miner_fee,
            sigops: legacy_sigop_count,
            required: true,
        }
    }

    /// The serialized bytes of the transaction.
    pub fn data(&self) -> (r: &Vec<u8>)
        ensures
            r == &self.data,
    {
        &self.data
    }

    /// The transaction ID.
    pub fn hash(&self) -> (r: [u8; 32])
        ensures
            r == self.hash,
    {
        self.hash
    }

    /// The authorizing data digest.
    pub fn auth_digest(&self) -> (r: [u8; 32])
        ensures
            r == self.auth_digest,
    {
        self.auth_digest
    }

    /// The in-block dependencies; always empty.
    pub fn depends(&self) -> (r: &Vec<u16>)
        ensures
            r == &self.depends,
    {
        &self.depends
    }

    /// The fee, in zatoshis.
    pub fn fee(&self) -> (r: i64)
        ensures
            r == self.fee,
    {
        self.fee
    }

    /// The number of transparent signature operations.
    pub fn sigops(&self) -> (r: u64)
        ensures
            r == self.sigops,
    {
        self.sigops
    }

    /// Whether the transaction is required in the block.
    pub fn required(&self) -> (r: bool)
        ensures
            r == self.required,
    {
        self.required
    }
}

/// The script of a transaction output.
#[derive(Clone, Debug, PartialEq, Eq)]
pub struct ScriptPubKey {
    /// The disassembled form; not currently populated.
    pub assembly: String,
    /// The raw script bytes.
    pub hex: Vec<u8>,
    /// The required number of signatures, where known.
    pub req_sigs: Option<u32>,
    /// The script kind, such as a public-key hash; not currently
    /// populated.
    pub script_type: String,
    /// The destination addresses, where known.
    pub addresses: Option<Vec<String>>,
}

impl ScriptPubKey {
    /// Builds an output script rendering from its parts.
    pub fn new(
        assembly: String,
        hex: Vec<u8>,
        req_sigs: Option<u32>,
        script_type: String,
        addresses: Option<Vec<String>>,
    ) -> (r: ScriptPubKey)
        ensures
            r.assembly == assembly,
            r.hex == hex,
            r.req_sigs == req_sigs,
            r.script_type == script_type,
            r.addresses == addresses,
    {
        ScriptPubKey { assembly, hex, req_sigs, script_type, addresses }
    }

    /// The disassembled form.
    pub fn assembly(&self) -> (r: &String)
        ensures
            r == &self.assembly,
    {
        &self.assembly
    }

    /// The raw script bytes.
    pub fn hex(&self) -> (r: &Vec<u8>)
        ensures
            r == &self.hex,
    {
        &self.hex
    }

    /// The required number of signatures, where known.
    pub fn req_sigs(&self) -> (r: Option<u32>)
        ensures
            r == self.req_sigs,
    {
        self.req_sigs
    }

    /// The script kind.
    pub fn script_type(&self) -> (r: &String)
        ensures
            r == &self.script_type,
    {
        &self.script_type
    }

    /// The destination addresses, where known.
    pub fn addresses(&self) -> (r: &Option<Vec<String>>)
        ensures
            r == &self.addresses,
    {
        &self.addresses
    }
}

/// The script of a transaction input.
#[derive(Clone, Debug, PartialEq, Eq)]
pub struct ScriptSig {
    /// The disassembled form; not currently populated.
    pub assembly: String,
    /// The raw script bytes.
    pub hex: Vec<u8>,
}

impl ScriptSig {
    /// Builds an input script rendering from its parts.
    pub fn new(assembly: String, hex: Vec<u8>) -> (r: ScriptSig)
        ensures
            r.assembly == assembly,
            r.hex == hex,
    {
        ScriptSig { assembly, hex }
    }

    /// The disassembled form.
    pub fn assembly(&self) -> (r: &String)
        ensures
            r == &self.assembly,
    {
        &self.assembly
    }

    /// The raw script bytes.
    pub fn hex(&self) -> (r: &Vec<u8>)
        ensures
            r == &self.hex,
    {
        &self.hex
    }
}

/// A Sapling spend of a transaction.
#[derive(Clone, Copy, Debug, PartialEq, Eq)]
pub struct ShieldedSpend {
    /// Value commitment to the input note.
    pub cv: [u8; 32],
    /// Merkle root of the Sapling note commitment tree.
    pub anchor: [u8; 32],
    /// The nullifier of the input note.
    pub nullifier: [u8; 32],
    /// The randomized public key for the spend authorization signature.
    pub rk: [u8; 32],
    /// A zero-knowledge proof using the Sapling spend circuit.
    pub zkproof: [u8; 192],
    /// A signature authorizing this spend.
    pub spend_auth_sig: [u8; 64],
}

impl ShieldedSpend {
    /// Builds a Sapling spend rendering from its parts.
    pub fn new(
        cv: [u8; 32],
        anchor: [u8; 32],
        nullifier: [u8; 32],
        rk: [u8; 32],
        zkproof: [u8; 192],
        spend_auth_sig: [u8; 64],
    ) -> (r: ShieldedSpend)
        ensures
            r.cv == cv,
            r.anchor == anchor,
            r.nullifier == nullifier,
            r.rk == rk,
            r.zkproof == zkproof,
            r.spend_auth_sig == spend_auth_sig,
    {
        ShieldedSpend { cv, anchor, nullifier, rk, zkproof, spend_auth_sig }
    }

    /// Value commitment to the input note.
    pub fn cv(&self) -> (r: [u8; 32])
        ensures
            r == self.cv,
    {
        self.cv
    }

    /// Merkle root of the Sapling note commitment tree.
    pub fn anchor(&self) -> (r: [u8; 32])
        ensures
            r == self.anchor,
    {
        self.anchor
    }

    /// The nullifier of the input note.
    pub fn nullifier(&self) -> (r: [u8; 32])
        ensures
            r == self.nullifier,
    {
        self.nullifier
    }

    /// The randomized public key for the spend authorization signature.
    pub fn rk(&self) -> (r: [u8; 32])
        ensures
            r == self.rk,
    {
        self.rk
    }

    /// The zero-knowledge proof.
    pub fn zkproof(&self) -> (r: [u8; 192])
        ensures
            r == self.zkproof,
    {
        self.zkproof
    }

    /// The signature authorizing this spend.
    pub fn spend_auth_sig(&self) -> (r: [u8; 64])
        ensures
            r == self.spend_auth_sig,
    {
        self.spend_auth_sig
    }
}

/// A Sapling output of a transaction.
#[derive(Clone, Copy, Debug, PartialEq, Eq)]
pub struct ShieldedOutput {
    /// Value commitment to the output note.
    pub cv: [u8; 32],
    /// The u-coordinate of the note commitment for the output note.
    pub cm_u: [u8; 32],
    /// A Jubjub public key.
    pub ephemeral_key: [u8; 32],
    /// The output note encrypted to the recipient.
    pub enc_ciphertext: [u8; 580],
    /// A ciphertext enabling the sender to recover the output note.
    pub out_ciphertext: [u8; 80],
    /// A zero-knowledge proof using the Sapling output circuit.
    pub zkproof: [u8; 192],
}

impl ShieldedOutput {
    /// Builds a Sapling output rendering from its parts.
    pub fn new(
        cv: [u8; 32],
        cm_u: [u8; 32],
        ephemeral_key: [u8; 32],
        enc_ciphertext: [u8; 580],
        out_ciphertext: [u8; 80],
        zkproof: [u8; 192],
    ) -> (r: ShieldedOutput)
        ensures
            r.cv == cv,
            r.cm_u == cm_u,
            r.ephemeral_key == ephemeral_key,
            r.enc_ciphertext == enc_ciphertext,
            r.out_ciphertext == out_ciphertext,
            r.zkproof == zkproof,
    {
        ShieldedOutput { cv, cm_u, ephemeral_key, enc_ciphertext, out_ciphertext, zkproof }
    }

    /// Value commitment to the output note.
    pub fn cv(&self) -> (r: [u8; 32])
        ensures
            r == self.cv,
    {
        self.cv
    }

    /// The u-coordinate of the note commitment.
    pub fn cm_u(&self) -> (r: [u8; 32])
        ensures
            r == self.cm_u,
    {
        self.cm_u
    }

    /// The ephemeral Jubjub public key.
    pub fn ephemeral_key(&self) -> (r: [u8; 32])
        ensures
            r == self.ephemeral_key,
    {
        self.ephemeral_key
    }

    /// The output note encrypted to the recipient.
    pub fn enc_ciphertext(&self) -> (r: [u8; 580])
        ensures
            r == self.enc_ciphertext,
    {
        self.enc_ciphertext
    }

    /// The ciphertext enabling the sender to recover the output note.
    pub fn out_ciphertext(&self) -> (r: [u8; 80])
        ensures
            r == self.out_ciphertext,
    {
        self.out_ciphertext
    }

    /// The zero-knowledge proof.
    pub fn zkproof(&self) -> (r: [u8; 192])
        ensures
            r == self.zkproof,
    {
        self.zkproof
    }
}

/// An Orchard action of a transaction.
#[derive(Clone, Copy, Debug, PartialEq, Eq)]
pub struct OrchardAction {
    /// A value commitment to the net value of the input note minus the
    /// output note.
    pub cv: [u8; 32],
    /// The nullifier of the input note.
    pub nullifier: [u8; 32],
    /// The randomized validating key for the spend authorization
    /// signature.
    pub rk: [u8; 32],
    /// The x-coordinate of the note commitment for the output note.
    pub cm_x: [u8; 32],
    /// An encoding of an ephemeral Pallas public key.
    pub ephemeral_key: [u8; 32],
    /// The output note encrypted to the recipient.
    pub enc_ciphertext: [u8; 580],
    /// A signature authorizing the spend in this action.
    pub spend_auth_sig: [u8; 64],
    /// A ciphertext enabling the sender to recover the output note.
    pub out_ciphertext: [u8; 80],
}

impl OrchardAction {
    /// Builds an Orchard action rendering from its parts.
    pub fn new(
        cv: [u8; 32],
        nullifier: [u8; 32],
        rk: [u8; 32],
        cm_x: [u8; 32],
        ephemeral_key: [u8; 32],
        enc_ciphertext: [u8; 580],
        spend_auth_sig: [u8; 64],
        out_ciphertext: [u8; 80],
    ) -> (r: OrchardAction)
        ensures
            r.cv == cv,
            r.nullifier == nullifier,
            r.rk == rk,
            r.cm_x == cm_x,
            r.ephemeral_key == ephemeral_key,
            r.enc_ciphertext == enc_ciphertext,
            r.spend_auth_sig == spend_auth_sig,
            r.out_ciphertext == out_ciphertext,
    {
        OrchardAction {
            cv,
            nullifier,
            rk,
            cm_x,
            ephemeral_key,
            enc_ciphertext,
            spend_auth_sig,
            out_ciphertext,
        }
    }

    /// The value commitment.
    pub fn cv(&self) -> (r: [u8; 32])
        ensures
            r == self.cv,
    {
        self.cv
    }

    /// The nullifier of the input note.
    pub fn nullifier(&self) -> (r: [u8; 32])
        ensures
            r == self.nullifier,
    {
        self.nullifier
    }

    /// The randomized validating key.
    pub fn rk(&self) -> (r: [u8; 32])
        ensures
            r == self.rk,
    {
        self.rk
    }

    /// The x-coordinate of the note commitment.
    pub fn cm_x(&self) -> (r: [u8; 32])
        ensures
            r == self.cm_x,
    {
        self.cm_x
    }

    /// The ephemeral Pallas public key encoding.
    pub fn ephemeral_key(&self) -> (r: [u8; 32])
        ensures
            r == self.ephemeral_key,
    {
        self.ephemeral_key
    }

    /// The output note encrypted to the recipient.
    pub fn enc_ciphertext(&self) -> (r: [u8; 580])
        ensures
            r == self.enc_ciphertext,
    {
        self.enc_ciphertext
    }

    /// The signature authorizing the spend.
    pub fn spend_auth_sig(&self) -> (r: [u8; 64])
        ensures
            r == self.spend_auth_sig,
    {
        self.spend_auth_sig
    }

    /// The ciphertext enabling the sender to recover the output note.
    pub fn out_ciphertext(&self) -> (r: [u8; 80])
        ensures
            r == self.out_ciphertext,
    {
        self.out_ciphertext
    }
}

} // verus!
