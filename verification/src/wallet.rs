use vstd::prelude::*;
use crate::keys::{ecdsa_sig_of, pubkey_of, Message, PrivateKey, PublicKey, Signature};

verus! {

/// A signing wallet: a secret key and the public key derived from it.
pub struct Wallet {
    pub private_key: PrivateKey,
    pub public_key: PublicKey,
}

impl Wallet {
    /// The held key pair is well-formed and the public key is the secret
    /// key's.
    pub open spec fn wf(&self) -> bool {
        &&& self.private_key.wf()
        &&& self.public_key.wf()
        &&& self.public_key.bytes_seq() == pubkey_of(self.private_key.bytes_seq())
    }

    /// The held secret key's bytes.
    pub closed spec fn key_seq(&self) -> Seq<u8> {
        self.private_key.bytes_seq()
    }

    /// Draws a fresh key pair.
    pub fn initialize_new_wallet() -> (r: Wallet)
        ensures
            r.wf(),
    {
        let private_key = PrivateKey::new();
        let public_key = PublicKey::from_private_key(&private_key);
        Wallet { private_key, public_key }
    }

    /// Wraps an existing secret key, deriving its public key.
    pub fn initialize_from_private_key(private_key: PrivateKey) -> (r: Wallet)
        requires
            private_key.wf(),
        ensures
            r.wf(),
            r.key_seq() == private_key.bytes_seq(),
    {
        let public_key = PublicKey::from_private_key(&private_key);
        Wallet { private_key, public_key }
    }

    /// The wallet's public key.
    pub fn get_public_key(&self) -> (r: PublicKey)
        requires
            self.wf(),
        ensures
            r.wf(),
            r.bytes_seq() == pubkey_of(self.key_seq()),
    {
        self.public_key.clone_key()
    }

    /// Signs a message with the wallet's secret key.
    pub fn sign_message(&self, message: &Message) -> (r: Signature)
        requires
            self.wf(),
            message.wf(),
        ensures
            r.wf(),
            (r.r_seq(), r.s_seq()) == ecdsa_sig_of(message.bytes_seq(), self.key_seq()),
    {
        self.private_key.sign_message(message)
    }
}

} // verus!
