//! The chain's data as plain values: accounts, actions, transactions, signatures
//! and signing domains.
//!
//! Keys, signing and the wire encoding belong to the chain's own crates; what is
//! here is what the traffic logic decides about and builds.

use crate::text::owned;
use vstd::prelude::*;

verus! {

/// An account id, by its text. Whether a text is a valid id is the chain's to say.
#[derive(Debug, PartialEq, Eq)]
pub struct AccountId {
    text: String,
}

impl AccountId {
    /// The id's text.
    pub closed spec fn view(&self) -> Seq<char> {
        self.text@
    }

    /// An id with this text.
    pub fn new(text: String) -> (a: Self)
        ensures
            a@ == text@,
    {
        AccountId { text }
    }

    /// The id's text.
    pub fn as_str(&self) -> (s: &str)
        ensures
            s@ == self@,
    {
        self.text.as_str()
    }
}

impl Clone for AccountId {
    fn clone(&self) -> (r: Self)
        ensures
            r@ == self@,
    {
        AccountId { text: owned(self.text.as_str()) }
    }
}

/// The network a signature is bound to: its chain id and genesis hash.
#[derive(Debug, PartialEq, Eq)]
pub struct SigningDomain {
    chain_id: String,
    genesis: [u8; 32],
}

/// A signing domain by its contents.
pub struct DomainView {
    pub chain_id: Seq<char>,
    pub genesis: Seq<u8>,
}

impl SigningDomain {
    /// The domain's contents.
    pub closed spec fn view(&self) -> DomainView {
        DomainView { chain_id: self.chain_id@, genesis: self.genesis@ }
    }

    /// A domain of this chain id and genesis hash.
    pub fn new(chain_id: String, genesis: [u8; 32]) -> (d: Self)
        ensures
            d@ == (DomainView { chain_id: chain_id@, genesis: genesis@ }),
    {
        SigningDomain { chain_id, genesis }
    }

    /// The chain id.
    pub fn chain_id(&self) -> (s: &str)
        ensures
            s@ == self@.chain_id,
    {
        self.chain_id.as_str()
    }

    /// The genesis hash.
    pub fn genesis(&self) -> (g: [u8; 32])
        ensures
            g@ == self@.genesis,
    {
        self.genesis
    }
}

impl Clone for SigningDomain {
    fn clone(&self) -> (r: Self)
        ensures
            r@ == self@,
    {
        SigningDomain { chain_id: owned(self.chain_id.as_str()), genesis: self.genesis }
    }
}

/// Which signatures a node verifies.
#[derive(Debug, PartialEq, Eq)]
pub enum TxDomainMode {
    /// Un-framed signatures only.
    Legacy,
    /// Un-framed signatures, or those bound to this domain.
    Grace(SigningDomain),
    /// Signatures bound to this domain only.
    Bound(SigningDomain),
}

/// What a transaction does, as far as the traffic logic builds or inspects it.
#[derive(Debug, PartialEq, Eq)]
pub enum Action {
    /// A plain transparent payment.
    Transfer {
        /// The recipient.
        to: AccountId,
        /// The value moved.
        amount_grains: u128,
    },
    /// Issue units of an asset the signer owns.
    TokenIssue {
        /// The asset's symbol.
        symbol: String,
        /// The units issued.
        amount_grains: u128,
        /// Who receives them.
        to: AccountId,
    },
    /// Mint an NFT with a metadata blob.
    NftMint {
        /// The collection's symbol.
        symbol: String,
        /// The token's id within the collection.
        token_id: Vec<u8>,
        /// Who receives it.
        to: AccountId,
        /// The blob.
        metadata: Vec<u8>,
    },
    /// Claim a name.
    RegisterName {
        /// The name.
        name: String,
    },
    /// A fee-auction envelope: a priority bid around another action.
    Tipped {
        /// The bid.
        tip_grains: u128,
        /// The action that is bid for.
        inner: Box<Action>,
    },
    /// An action executed under a multisig policy.
    MultisigExec {
        /// The action.
        action: Box<Action>,
    },
    /// A change of the signer's own key.
    RotateKey,
    /// A price report.
    OracleUpdate {
        /// The price.
        price: u128,
    },
}

/// An action by its contents.
pub enum ActionView {
    Transfer { to: Seq<char>, amount_grains: u128 },
    TokenIssue { symbol: Seq<char>, amount_grains: u128, to: Seq<char> },
    NftMint { symbol: Seq<char>, token_id: Seq<u8>, to: Seq<char>, metadata: Seq<u8> },
    RegisterName { name: Seq<char> },
    Tipped { tip_grains: u128, inner: Box<ActionView> },
    MultisigExec { action: Box<ActionView> },
    RotateKey,
    OracleUpdate { price: u128 },
}

impl Action {
    /// The action's contents.
    pub open spec fn view(&self) -> ActionView
        decreases self,
    {
        match self {
            Action::Transfer { to, amount_grains } => ActionView::Transfer {
                to: to@,
                amount_grains: *amount_grains,
            },
            Action::TokenIssue { symbol, amount_grains, to } => ActionView::TokenIssue {
                symbol: symbol@,
                amount_grains: *amount_grains,
                to: to@,
            },
            Action::NftMint { symbol, token_id, to, metadata } => ActionView::NftMint {
                symbol: symbol@,
                token_id: token_id@,
                to: to@,
                metadata: metadata@,
            },
            Action::RegisterName { name } => ActionView::RegisterName { name: name@ },
            Action::Tipped { tip_grains, inner } => ActionView::Tipped {
                tip_grains: *tip_grains,
                inner: Box::new(inner.view()),
            },
            Action::MultisigExec { action } => ActionView::MultisigExec {
                action: Box::new(action.view()),
            },
            Action::RotateKey => ActionView::RotateKey,
            Action::OracleUpdate { price } => ActionView::OracleUpdate { price: *price },
        }
    }
}

/// A copy of a byte vector.
pub fn copy_bytes(v: &Vec<u8>) -> (r: Vec<u8>)
    ensures
        r@ == v@,
{
    let mut r: Vec<u8> = Vec::new();
    let mut i: usize = 0;
    while i < v.len()
        invariant
            i <= v@.len(),
            r@ == v@.take(i as int),
        decreases v@.len() - i,
    {
        r.push(v[i]);
        assert(r@ =~= v@.take(i + 1));
        i = i + 1;
    }
    assert(r@ =~= v@);
    r
}

impl Clone for Action {
    fn clone(&self) -> (r: Self)
        ensures
            r@ == self@,
        decreases self,
    {
        match self {
            Action::Transfer { to, amount_grains } => Action::Transfer {
                to: to.clone(),
                amount_grains: *amount_grains,
            },
            Action::TokenIssue { symbol, amount_grains, to } => Action::TokenIssue {
                symbol: owned(symbol.as_str()),
                amount_grains: *amount_grains,
                to: to.clone(),
            },
            Action::NftMint { symbol, token_id, to, metadata } => Action::NftMint {
                symbol: owned(symbol.as_str()),
                token_id: copy_bytes(token_id),
                to: to.clone(),
                metadata: copy_bytes(metadata),
            },
            Action::RegisterName { name } => Action::RegisterName { name: owned(name.as_str()) },
            Action::Tipped { tip_grains, inner } => Action::Tipped {
                tip_grains: *tip_grains,
                inner: Box::new((&**inner).clone()),
            },
            Action::MultisigExec { action } => Action::MultisigExec {
                action: Box::new((&**action).clone()),
            },
            Action::RotateKey => Action::RotateKey,
            Action::OracleUpdate { price } => Action::OracleUpdate { price: *price },
        }
    }
}

/// A public key, by its bytes.
#[derive(Debug, PartialEq, Eq)]
pub struct PublicKey {
    pub bytes: Vec<u8>,
}

/// A signature: classical, or classical and post-quantum together.
#[derive(Debug, PartialEq, Eq)]
pub enum Signature {
    /// Ed25519 alone.
    V1Ed25519([u8; 64]),
    /// Ed25519 and ML-DSA-65; both halves must verify.
    V2HybridMlDsa65 {
        /// The classical half.
        ed25519: [u8; 64],
        /// The post-quantum half.
        ml_dsa: Vec<u8>,
    },
}

/// A signature by its bytes.
pub enum SignatureView {
    V1Ed25519(Seq<u8>),
    V2HybridMlDsa65 { ed25519: Seq<u8>, ml_dsa: Seq<u8> },
}

impl Signature {
    /// The signature's bytes.
    pub open spec fn view(&self) -> SignatureView {
        match self {
            Signature::V1Ed25519(b) => SignatureView::V1Ed25519(b@),
            Signature::V2HybridMlDsa65 { ed25519, ml_dsa } => SignatureView::V2HybridMlDsa65 {
                ed25519: ed25519@,
                ml_dsa: ml_dsa@,
            },
        }
    }
}

/// A transaction's body.
#[derive(Debug, PartialEq, Eq)]
pub struct Transaction {
    /// The account that is spent from.
    pub signer: AccountId,
    /// The key that signs.
    pub public_key: PublicKey,
    /// The account's nonce this transaction uses.
    pub nonce: u64,
    /// What it does.
    pub action: Action,
}

/// A transaction body by its contents.
pub struct TransactionView {
    pub signer: Seq<char>,
    pub public_key: Seq<u8>,
    pub nonce: u64,
    pub action: ActionView,
}

impl Transaction {
    /// The body's contents.
    pub open spec fn view(&self) -> TransactionView {
        TransactionView {
            signer: self.signer@,
            public_key: self.public_key.bytes@,
            nonce: self.nonce,
            action: self.action@,
        }
    }
}

/// A transaction with its signature.
#[derive(Debug, PartialEq, Eq)]
pub struct SignedTransaction {
    /// The body.
    pub transaction: Transaction,
    /// The signature over it.
    pub signature: Signature,
}

/// A signed transaction by its contents.
pub struct SignedView {
    pub transaction: TransactionView,
    pub signature: SignatureView,
}

impl SignedTransaction {
    /// The signed transaction's contents.
    pub open spec fn view(&self) -> SignedView {
        SignedView { transaction: self.transaction@, signature: self.signature@ }
    }
}

impl Clone for PublicKey {
    fn clone(&self) -> (r: Self)
        ensures
            r.bytes@ == self.bytes@,
    {
        PublicKey { bytes: copy_bytes(&self.bytes) }
    }
}

impl Clone for Signature {
    fn clone(&self) -> (r: Self)
        ensures
            r@ == self@,
    {
        match self {
            Signature::V1Ed25519(b) => Signature::V1Ed25519(*b),
            Signature::V2HybridMlDsa65 { ed25519, ml_dsa } => Signature::V2HybridMlDsa65 {
                ed25519: *ed25519,
                ml_dsa: copy_bytes(ml_dsa),
            },
        }
    }
}

impl Clone for Transaction {
    fn clone(&self) -> (r: Self)
        ensures
            r@ == self@,
    {
        Transaction {
            signer: self.signer.clone(),
            public_key: self.public_key.clone(),
            nonce: self.nonce,
            action: self.action.clone(),
        }
    }
}

impl Clone for SignedTransaction {
    fn clone(&self) -> (r: Self)
        ensures
            r@ == self@,
    {
        SignedTransaction {
            transaction: self.transaction.clone(),
            signature: self.signature.clone(),
        }
    }
}

} // verus!
