//! The node's own identity and settings.
use vstd::prelude::*;

use crate::keys::{ed25519_public_of, PrivateKey, PublicKey};
use crate::user::I2PAddress;

verus! {

/// The port of the overlay router's control interface, unless configured.
pub const DEFAULT_SAM_PORT: u16 = 7656;

/// The node's signing key and the public key that belongs to it.
#[derive(Debug, Clone)]
pub struct KeyPair {
    pub private_key: PrivateKey,
    pub public_key: PublicKey,
}

impl KeyPair {
    pub fn new(private_key: PrivateKey) -> (r: KeyPair)
        ensures
            r.private_key.0@ == private_key.0@,
            r.public_key.0@ == ed25519_public_of(private_key.0@),
    {
        let public_key = private_key.public_key();
        KeyPair { private_key, public_key }
    }
}

/// The node's settings.
#[derive(Debug, Clone)]
pub struct AuroraConfig {
    pub keypair: KeyPair,
    pub sam_port: u16,
    pub eepsite_key: String,
    pub eepsite_address: I2PAddress,
    pub dev_mode: bool,
    pub is_relay: bool,
}

impl Default for AuroraConfig {
    /// A fresh key, the default router port, no site key or address yet.
    fn default() -> (r: AuroraConfig)
        ensures
            r.keypair.public_key.0@ == ed25519_public_of(r.keypair.private_key.0@),
            r.sam_port == DEFAULT_SAM_PORT,
            r.eepsite_key@.len() == 0,
            r.eepsite_address.0@.len() == 0,
            !r.dev_mode,
            !r.is_relay,
    {
        AuroraConfig {
            keypair: KeyPair::new(PrivateKey::new()),
            sam_port: DEFAULT_SAM_PORT,
            eepsite_key: String::new(),
            eepsite_address: I2PAddress::new(String::new()),
            dev_mode: false,
            is_relay: false,
        }
    }
}

impl AuroraConfig {
    pub fn eepsite_key(&self) -> (r: &String)
        ensures
            r@ == self.eepsite_key@,
    {
        &self.eepsite_key
    }

    pub fn eepsite_address(&self) -> (r: &I2PAddress)
        ensures
            r.0@ == self.eepsite_address.0@,
    {
        &self.eepsite_address
    }

    pub fn sam_port(&self) -> (r: u16)
        ensures
            r == self.sam_port,
    {
        self.sam_port
    }

    pub fn public_key(&self) -> (r: &PublicKey)
        ensures
            r == &self.keypair.public_key,
    {
        &self.keypair.public_key
    }

    pub fn private_key(&self) -> (r: &PrivateKey)
        ensures
            r.0@ == self.keypair.private_key.0@,
    {
        &self.keypair.private_key
    }

    pub fn dev_mode(&self) -> (r: bool)
        ensures
            r == self.dev_mode,
    {
        self.dev_mode
    }

    pub fn set_dev_mode(&mut self, dev_mode: bool)
        ensures
            final(self).dev_mode == dev_mode,
            final(self).eepsite_key@ == old(self).eepsite_key@,
            final(self).eepsite_address.0@ == old(self).eepsite_address.0@,
            final(self).keypair.private_key.0@ == old(self).keypair.private_key.0@,
            final(self).is_relay == old(self).is_relay,
            final(self).sam_port == old(self).sam_port,
            final(self).keypair.public_key == old(self).keypair.public_key,
    {
        self.dev_mode = dev_mode;
    }

    pub fn is_relay(&self) -> (r: bool)
        ensures
            r == self.is_relay,
    {
        self.is_relay
    }

    pub fn set_is_relay(&mut self, is_relay: bool)
        ensures
            final(self).is_relay == is_relay,
            final(self).eepsite_key@ == old(self).eepsite_key@,
            final(self).eepsite_address.0@ == old(self).eepsite_address.0@,
            final(self).keypair.private_key.0@ == old(self).keypair.private_key.0@,
            final(self).dev_mode == old(self).dev_mode,
            final(self).sam_port == old(self).sam_port,
            final(self).keypair.public_key == old(self).keypair.public_key,
    {
        self.is_relay = is_relay;
    }
}

} // verus!
