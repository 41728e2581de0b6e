//! Plain values that orders, blocks and their results are made of.
use crate::text::{hex_bytes, push_hex_bytes, push_uuid, uuid_text};
use vstd::prelude::*;
use vstd::string::*;

verus! {

/// An account address.
pub type Address = [u8; 20];

/// A 256-bit hash.
pub type B256 = [u8; 32];

/// Identifies the bundles that replace each other: one uuid of one signer.
#[derive(Debug, Clone, Copy, PartialEq, Eq)]
pub struct BundleReplacementKey {
    pub uuid: u128,
    pub signer: Address,
}

impl BundleReplacementKey {
    pub fn new(uuid: u128, signer: Address) -> (key: Self)
        ensures
            key.uuid == uuid,
            key.signer == signer,
    {
        BundleReplacementKey { uuid, signer }
    }

    /// The text that [`BundleReplacementKey::display`] gives.
    pub open spec fn text(self) -> Seq<char> {
        "BundleReplacementKey { uuid: "@ + uuid_text(self.uuid) + ", signer: 0x"@ + hex_bytes(
            self.signer@,
        ) + " }"@
    }

    /// The key in words.
    pub fn display(&self) -> (text: String)
        ensures
            text@ == self.text(),
            text@ == "BundleReplacementKey { uuid: "@ + uuid_text(self.uuid) + ", signer: 0x"@
                + hex_bytes(self.signer@) + " }"@,
    {
        let mut text = "BundleReplacementKey { uuid: ".to_owned();
        push_uuid(&mut text, self.uuid);
        text.append(", signer: 0x");
        push_hex_bytes(&mut text, &self.signer);
        text.append(" }");
        text
    }
}

/// Which order replaces which: bundles and share bundles have key spaces of their own.
#[derive(Debug, Clone, Copy, PartialEq, Eq)]
pub enum OrderReplacementKey {
    Bundle(BundleReplacementKey),
    ShareBundle(BundleReplacementKey),
}

impl OrderReplacementKey {
    /// The text that [`OrderReplacementKey::display`] gives.
    pub open spec fn text(self) -> Seq<char> {
        match self {
            OrderReplacementKey::Bundle(key) => "Bundle("@ + key.text() + ")"@,
            OrderReplacementKey::ShareBundle(key) => "ShareBundle("@ + key.text() + ")"@,
        }
    }

    /// The key in words.
    pub fn display(&self) -> (text: String)
        ensures
            text@ == self.text(),
            (match *self {
                OrderReplacementKey::Bundle(key) => text@ == "Bundle("@ + key.text() + ")"@,
                OrderReplacementKey::ShareBundle(key) => text@ == "ShareBundle("@ + key.text()
                    + ")"@,
            }),
    {
        let mut text = String::new();
        match self {
            OrderReplacementKey::Bundle(key) => {
                text.append("Bundle(");
                text.append(key.display().as_str());
            },
            OrderReplacementKey::ShareBundle(key) => {
                text.append("ShareBundle(");
                text.append(key.display().as_str());
            },
        }
        text.append(")");
        text
    }
}

/// The three kinds of orders that a block is built of.
#[derive(Debug, Clone, Copy, PartialEq, Eq)]
pub enum OrderKind {
    Tx,
    Bundle,
    ShareBundle,
}

/// A transaction as an order lists it.
#[derive(Debug, Clone, Copy, PartialEq, Eq)]
pub struct ListedTx {
    pub hash: B256,
    pub can_revert: bool,
}

/// An order, reduced to what the record of a built block reads of it.
#[derive(Debug, Clone, PartialEq, Eq)]
pub struct Order {
    pub kind: OrderKind,
    /// Whether the order came from the preconfirmation pool.
    pub preconf: bool,
    /// For each order that this one was merged from (itself, if it was not merged) its
    /// replacement key, where it has one.
    pub original_orders: Vec<Option<OrderReplacementKey>>,
    /// The transactions that the order asked for.
    pub txs: Vec<ListedTx>,
}

/// A transaction as it was executed.
#[derive(Debug, Clone, Copy, PartialEq, Eq)]
pub struct ExecutedTx {
    pub hash: B256,
    pub signer: Address,
    /// The callee; none for a contract creation.
    pub to: Option<Address>,
}

/// What the execution of a transaction left behind.
#[derive(Debug, Clone, Copy, PartialEq, Eq)]
pub struct Receipt {
    pub success: bool,
}

/// An order that was committed to a block, with what was executed for it.
#[derive(Debug, Clone, PartialEq, Eq)]
pub struct ExecutionResult {
    pub order: Order,
    pub txs: Vec<ExecutedTx>,
    pub receipts: Vec<Receipt>,
}

/// Why a bundle could not be committed.
#[derive(Debug, Clone, Copy, PartialEq, Eq)]
pub enum BundleErr {
    /// The payment needs a signer that the builder does not have.
    NoSigner,
    /// Any other failure.
    Other,
}

/// Why an order could not be committed.
#[derive(Debug, Clone, Copy, PartialEq, Eq)]
pub enum OrderErr {
    Bundle(BundleErr),
    /// Any failure that is not a bundle's.
    Other,
}

/// Why the execution of an order failed.
#[derive(Debug, Clone, Copy, PartialEq, Eq)]
pub enum ExecutionError {
    OrderError(OrderErr),
    /// Any failure that is not the order's.
    Other,
}

} // verus!
