use aurora::address::{b32_from_pub_b64, i2p_b64_fix};
use aurora::config::{AuroraConfig, KeyPair};
use aurora::error::Base64Error;
use aurora::history::LiFo;
use aurora::keys::{PrivateKey, PublicKey, Signature};
use aurora::user::TrustLevel;

#[test]
fn default_config() {
    let mut config = AuroraConfig::default();
    assert_eq!(config.sam_port(), 7656);
    assert_eq!(config.eepsite_key(), "");
    assert_eq!(config.eepsite_address().inner(), "");
    assert!(!config.dev_mode());
    assert!(!config.is_relay());
    assert_eq!(config.public_key(), &config.private_key().public_key());
    config.set_dev_mode(true);
    config.set_is_relay(true);
    assert!(config.dev_mode());
    assert!(config.is_relay());
}

#[test]
fn key_pair_derives_public_key() {
    let k = PrivateKey::from_bytes([3; 32]);
    let pair = KeyPair::new(k.clone());
    assert_eq!(pair.public_key, k.public_key());
}

#[test]
fn history_keeps_the_last_pushes() {
    let mut h: LiFo<u32, 3> = LiFo::new();
    assert!(!h.can_pop());
    assert_eq!(h.pop(), None);
    for i in 1..=5 {
        h.push(i);
    }
    assert!(h.can_pop());
    assert_eq!(h.pop(), Some(5));
    assert_eq!(h.pop(), Some(4));
    h.push(9);
    assert_eq!(h.pop(), Some(9));
    assert_eq!(h.pop(), Some(3));
    assert_eq!(h.pop(), None);
    assert!(!h.can_pop());
}

#[test]
fn base64_forms() {
    let h = aurora::keys::Hash::new([1; 64]);
    let text = h.as_base64();
    assert_eq!(
        text,
        "AQEBAQEBAQEBAQEBAQEBAQEBAQEBAQEBAQEBAQEBAQEBAQEBAQEBAQEBAQEBAQEBAQEBAQEBAQEBAQEBAQEBAQ"
    );
    assert_eq!(aurora::keys::Hash::from_base64(&text).unwrap().0, [1; 64]);
    assert!(aurora::keys::Hash::from_base64("AQ").is_err());
    let pk = PublicKey(core::array::from_fn(|i| i as u8));
    assert_eq!(pk.to_base64(), "AAECAwQFBgcICQoLDA0ODxAREhMUFRYXGBkaGxwdHh8");
    assert_eq!(PublicKey::from_base64(&pk.to_base64()), Ok(pk));
    assert_eq!(
        PublicKey::from_base64("AQ"),
        Err(Base64Error::InvalidLength { expected: 32, actual: 1 })
    );
    assert_eq!(PublicKey::from_base64("!!"), Err(Base64Error::InvalidBase64));
    let k = PrivateKey::from_bytes([7; 32]);
    assert_eq!(PrivateKey::from_base64(&k.to_base64()).unwrap().as_bytes(), &[7; 32]);
    let sig = k.sign(b"x");
    assert_eq!(Signature::from_base64(&sig.as_base64()), Ok(sig));
    assert!(matches!(Signature::from_base64(&pk.to_base64()), Err(Base64Error::InvalidLength { expected: 64, .. })));
}

#[test]
fn public_key_hex() {
    let pk = PublicKey(core::array::from_fn(|i| (i * 8) as u8));
    let hex = pk.to_hex();
    assert_eq!(hex.len(), 64);
    assert!(hex.starts_with("0008101820"));
    assert!(hex.ends_with("f0f8"));
}

#[test]
fn trust_labels() {
    assert_eq!(TrustLevel::Untrusted.label(), "Untrusted");
    assert_eq!(TrustLevel::FullTrust.label(), "Full trust");
}

#[test]
fn b32_address_of_destination() {
    assert_eq!(
        b32_from_pub_b64("  AAAA.b64.i2p ").unwrap().into_inner(),
        "ocpibseeq6rechq64tp3t4rkqykjfuqmi5srkdampffl24hycr6a.b32.i2p"
    );
    assert_eq!(
        b32_from_pub_b64("AAAA.i2p").unwrap().into_inner(),
        "ocpibseeq6rechq64tp3t4rkqykjfuqmi5srkdampffl24hycr6a.b32.i2p"
    );
    assert_eq!(
        b32_from_pub_b64("ab-~").unwrap().into_inner(),
        "ihnr7kl55vefr7hz2svramme3nl3cgwlgfqapl75j7hy2k6lnepq.b32.i2p"
    );
    assert_eq!(b32_from_pub_b64("not base64!"), Err(Base64Error::InvalidBase64));
}

#[test]
fn b64_fix_maps_the_i2p_alphabet() {
    assert_eq!(i2p_b64_fix(" a-b~c "), b"a+b/c".to_vec());
}
