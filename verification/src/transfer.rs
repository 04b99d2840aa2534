//! The transaction a transfer is sent as.

use crate::chain;
use crate::chain::{AccountId, Action, PublicKey, Transaction};
use crate::text::{owned, same_text};
use vstd::prelude::*;

verus! {

/// The key scheme a wallet seed derives.
#[derive(Clone, Copy, Debug, PartialEq, Eq, Structural)]
pub enum KeyScheme {
    /// The classical scheme.
    Ed25519,
    /// The classical and the post-quantum scheme together.
    Hybrid65,
}

impl KeyScheme {
    /// Parse a keystore's scheme. An absent one is the classical scheme.
    pub fn from_keystore(scheme: Option<&str>) -> (r: Result<Self, String>)
        ensures
            r matches Ok(k) ==> k == match scheme {
                None => KeyScheme::Ed25519,
                Some(s) => if s@ == "ed25519"@ {
                    KeyScheme::Ed25519
                } else {
                    KeyScheme::Hybrid65
                },
            },
            r is Err <==> (scheme matches Some(s) && s@ != "ed25519"@ && s@ != "hybrid65"@),
            r matches Err(e) ==> scheme matches Some(s) && e@ == "unknown key scheme `"@ + s@
                + "`"@,
    {
        match scheme {
            None => Ok(KeyScheme::Ed25519),
            Some(s) => {
                if same_text(s, "ed25519") {
                    Ok(KeyScheme::Ed25519)
                } else if same_text(s, "hybrid65") {
                    Ok(KeyScheme::Hybrid65)
                } else {
                    let mut e = owned("unknown key scheme `");
                    e.append(s);
                    e.append("`");
                    Err(e)
                }
            },
        }
    }
}

/// The action a transfer carries: an envelope only when the auction is live and the
/// bid is not zero.
pub open spec fn transfer_shape(
    to: Seq<char>,
    amount_grains: u128,
    tip_grains: u128,
    auction_active: bool,
) -> chain::ActionView {
    let transfer = chain::ActionView::Transfer { to, amount_grains };
    if auction_active && tip_grains > 0 {
        chain::ActionView::Tipped { tip_grains, inner: Box::new(transfer) }
    } else {
        transfer
    }
}

/// Build the action a transfer should carry, wrapping it in a tip envelope only when
/// the blockspace auction is live and a nonzero tip is bid. This is the whole gate.
pub fn transfer_action(
    to: AccountId,
    amount_grains: u128,
    tip_grains: u128,
    auction_active: bool,
) -> (a: Action)
    ensures
        a@ == transfer_shape(to@, amount_grains, tip_grains, auction_active),
{
    let transfer = Action::Transfer { to, amount_grains };
    let ghost bare = transfer@;
    if auction_active && tip_grains > 0 {
        let a = Action::Tipped { tip_grains, inner: Box::new(transfer) };
        assert(a@ == chain::ActionView::Tipped { tip_grains, inner: Box::new(bare) });
        a
    } else {
        transfer
    }
}

/// The body of a transfer, ready for the key that belongs to `public_key` to sign.
pub fn transfer_body(
    public_key: PublicKey,
    from: &AccountId,
    to: &AccountId,
    amount_grains: u128,
    tip_grains: u128,
    auction_active: bool,
    nonce: u64,
) -> (t: Transaction)
    ensures
        t@ == (chain::TransactionView {
            signer: from@,
            public_key: public_key.bytes@,
            nonce,
            action: transfer_shape(to@, amount_grains, tip_grains, auction_active),
        }),
{
    Transaction {
        signer: from.clone(),
        public_key,
        nonce,
        action: transfer_action(to.clone(), amount_grains, tip_grains, auction_active),
    }
}

/// While the auction is dormant no bid is ever visible: every tip builds the same
/// action.
pub proof fn law_a_dormant_auction_sees_no_tip(to: Seq<char>, amount: u128, a: u128, b: u128)
    ensures
        transfer_shape(to, amount, a, false) == transfer_shape(to, amount, b, false),
        transfer_shape(to, amount, a, false) == transfer_shape(to, amount, 0, true),
        transfer_shape(to, amount, a, false) is Transfer,
{
}

/// The envelope is there exactly where the auction is live and something is bid. Inside it,
/// or alone, is the same payment: this amount, to this account.
pub proof fn law_an_envelope_is_a_live_bid(
    to: Seq<char>,
    amount: u128,
    tip: u128,
    auction_active: bool,
)
    ensures
        ({
            let a = transfer_shape(to, amount, tip, auction_active);
            let bare = chain::ActionView::Transfer { to, amount_grains: amount };
            &&& auction_active && tip > 0 ==> a == (chain::ActionView::Tipped {
                tip_grains: tip,
                inner: Box::new(bare),
            })
            &&& !auction_active || tip == 0 ==> a == bare
        }),
{
}

} // verus!
