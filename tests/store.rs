use todotui::codec::{decrypt_tasks, encrypt_tasks, seal_store, CipherError, KeyMaterial, NONCE_LEN, TAG_LEN};
use todotui::config::{handle_arguments, Args, Config, StartupAction};
use todotui::keys::{derive_key, generate_key, key_of_bytes, load_key, Key, KeyError, KEY_LEN, SALT_LEN};
use todotui::theme::Theme;

fn local() -> KeyMaterial {
    KeyMaterial::LocalKey(Key { bytes: [7u8; 32] })
}

fn payload() -> Vec<u8> {
    br#"[{"id":1,"title":"write report","date":"05 03 2024","time":"14 30","description":"","status":"Pending"}]"#.to_vec()
}

#[test]
fn local_key_round_trip() {
    let km = local();
    let sealed = encrypt_tasks(&km, &payload()).unwrap();
    assert_eq!(sealed.len(), NONCE_LEN + payload().len() + TAG_LEN);
    assert_eq!(decrypt_tasks(&km, &sealed), Ok(payload()));
}

#[test]
fn password_round_trip() {
    let km = KeyMaterial::Password("correct horse".to_string());
    let sealed = encrypt_tasks(&km, &payload()).unwrap();
    assert_eq!(sealed.len(), SALT_LEN + NONCE_LEN + payload().len() + TAG_LEN);
    assert_eq!(decrypt_tasks(&km, &sealed), Ok(payload()));
}

#[test]
fn empty_payload_round_trips() {
    let km = local();
    let sealed = encrypt_tasks(&km, &Vec::new()).unwrap();
    assert_eq!(sealed.len(), NONCE_LEN + TAG_LEN);
    assert_eq!(decrypt_tasks(&km, &sealed), Ok(Vec::new()));
}

#[test]
fn flipping_any_byte_fails_authentication() {
    let km = local();
    let sealed = encrypt_tasks(&km, &payload()).unwrap();
    for i in 0..sealed.len() {
        let mut bad = sealed.clone();
        bad[i] ^= 0x01;
        assert_eq!(decrypt_tasks(&km, &bad), Err(CipherError::Authentication), "byte {}", i);
    }
}

#[test]
fn flipping_a_password_store_byte_fails_authentication() {
    let km = KeyMaterial::Password("pw".to_string());
    let sealed = encrypt_tasks(&km, &b"[]".to_vec()).unwrap();
    for i in [0, 15, 16, 27, 28, sealed.len() - 1] {
        let mut bad = sealed.clone();
        bad[i] ^= 0x80;
        assert_eq!(decrypt_tasks(&km, &bad), Err(CipherError::Authentication), "byte {}", i);
    }
}

#[test]
fn each_encryption_draws_fresh_nonce_and_salt() {
    let km = local();
    let a = encrypt_tasks(&km, &payload()).unwrap();
    let b = encrypt_tasks(&km, &payload()).unwrap();
    assert_ne!(a, b);
    assert_ne!(a[..NONCE_LEN], b[..NONCE_LEN]);
    let pw = KeyMaterial::Password("pw".to_string());
    let c = encrypt_tasks(&pw, &payload()).unwrap();
    let d = encrypt_tasks(&pw, &payload()).unwrap();
    assert_ne!(c[..SALT_LEN], d[..SALT_LEN]);
    assert_ne!(c[SALT_LEN..SALT_LEN + NONCE_LEN], d[SALT_LEN..SALT_LEN + NONCE_LEN]);
}

#[test]
fn wrong_key_fails_authentication() {
    let sealed = encrypt_tasks(&local(), &payload()).unwrap();
    let other = KeyMaterial::LocalKey(Key { bytes: [8u8; 32] });
    assert_eq!(decrypt_tasks(&other, &sealed), Err(CipherError::Authentication));
}

#[test]
fn wrong_password_fails_authentication() {
    let sealed = encrypt_tasks(&KeyMaterial::Password("right".to_string()), &payload()).unwrap();
    let wrong = KeyMaterial::Password("wrong".to_string());
    assert_eq!(decrypt_tasks(&wrong, &sealed), Err(CipherError::Authentication));
}

#[test]
fn short_stores_are_truncated() {
    assert_eq!(decrypt_tasks(&local(), &vec![0u8; NONCE_LEN - 1]), Err(CipherError::Truncated));
    let pw = KeyMaterial::Password("pw".to_string());
    assert_eq!(decrypt_tasks(&pw, &vec![0u8; SALT_LEN + NONCE_LEN - 1]), Err(CipherError::Truncated));
    assert_eq!(decrypt_tasks(&local(), &vec![0u8; NONCE_LEN]), Err(CipherError::Authentication));
}

#[test]
fn sealed_layout_puts_header_first() {
    let salt = vec![1u8; SALT_LEN];
    let nonce = vec![2u8; NONCE_LEN];
    let local_bytes = seal_store(&local(), &salt, &nonce, &payload()).unwrap();
    assert_eq!(local_bytes[..NONCE_LEN], nonce[..]);
    assert_eq!(local_bytes.len(), NONCE_LEN + payload().len() + TAG_LEN);
    assert_ne!(local_bytes[NONCE_LEN..NONCE_LEN + payload().len()], payload()[..]);
    let pw_bytes = seal_store(&KeyMaterial::Password("pw".to_string()), &salt, &nonce, &payload()).unwrap();
    assert_eq!(pw_bytes[..SALT_LEN], salt[..]);
    assert_eq!(pw_bytes[SALT_LEN..SALT_LEN + NONCE_LEN], nonce[..]);
    assert_eq!(pw_bytes.len(), SALT_LEN + NONCE_LEN + payload().len() + TAG_LEN);
    // The same inputs seal to the same bytes.
    assert_eq!(seal_store(&local(), &salt, &nonce, &payload()).unwrap(), local_bytes);
    assert_eq!(decrypt_tasks(&local(), &local_bytes), Ok(payload()));
    assert_eq!(decrypt_tasks(&KeyMaterial::Password("pw".to_string()), &pw_bytes), Ok(payload()));
}

#[test]
fn load_key_needs_a_full_key_file() {
    assert_eq!(load_key(None), Err(KeyError::Missing));
    assert_eq!(load_key(Some(vec![1u8; 31])), Err(KeyError::InvalidLength));
    assert_eq!(load_key(Some(Vec::new())), Err(KeyError::InvalidLength));
    assert_eq!(load_key(Some(vec![3u8; KEY_LEN])), Ok(Key { bytes: [3u8; 32] }));
}

#[test]
fn generated_keys_differ() {
    assert_ne!(generate_key(), generate_key());
}

#[test]
fn derived_keys_depend_on_password_and_salt() {
    let salt = vec![9u8; SALT_LEN];
    let a = derive_key("pw", &salt).unwrap();
    assert_eq!(derive_key("pw", &salt).unwrap(), a);
    assert_ne!(derive_key("pw2", &salt).unwrap(), a);
    assert_ne!(derive_key("pw", &vec![8u8; SALT_LEN]).unwrap(), a);
    assert_ne!(a.bytes, [0u8; 32]);
}

#[test]
fn derivation_refuses_short_salt() {
    assert_eq!(derive_key("pw", &vec![1u8; 7]), Err(KeyError::Derivation));
    assert!(derive_key("pw", &vec![1u8; 8]).is_ok());
}

#[test]
fn arguments_map_to_startup_actions() {
    let none = Args { reset: false, generate_key: false };
    assert!(handle_arguments(&none).is_empty());
    let reset = Args { reset: true, generate_key: false };
    assert_eq!(handle_arguments(&reset), vec![StartupAction::ResetStore, StartupAction::GenerateKey]);
    let gen = Args { reset: false, generate_key: true };
    assert_eq!(handle_arguments(&gen), vec![StartupAction::GenerateKey]);
    let both = Args { reset: true, generate_key: true };
    assert_eq!(
        handle_arguments(&both),
        vec![StartupAction::ResetStore, StartupAction::GenerateKey, StartupAction::GenerateKey]
    );
}

#[test]
fn default_config_has_no_encryption() {
    assert!(!Config::new().encryption);
    assert!(!Config::default().encryption);
}

#[test]
fn themes_give_markers() {
    assert_eq!(Theme::Compatible.get_completed(), "[x]");
    assert_eq!(Theme::Compatible.get_delete(), "[-]");
    assert_eq!(Theme::Compatible.get_uncompleted(), "[ ]");
    assert_eq!(Theme::Default.get_completed(), "\u{f0134}");
    assert_eq!(Theme::Default.get_uncompleted(), "\u{f0130}");
    assert_eq!(Theme::Default.get_delete(), "\u{f0130}");
    assert_eq!(Theme::Default.change_theme(), Theme::Compatible);
    assert_eq!(Theme::Compatible.change_theme(), Theme::Default);
}

#[test]
fn change_key_reseals_under_new_material() {
    let old = KeyMaterial::Password("old".to_string());
    let new = local();
    let sealed = encrypt_tasks(&old, &payload()).unwrap();
    let resealed = todotui::codec::change_key(&old, &new, &sealed).unwrap();
    assert_eq!(resealed.len(), NONCE_LEN + payload().len() + TAG_LEN);
    assert_eq!(decrypt_tasks(&new, &resealed), Ok(payload()));
    assert_eq!(decrypt_tasks(&old, &resealed), Err(CipherError::Authentication));
    let wrong = KeyMaterial::Password("nope".to_string());
    assert_eq!(todotui::codec::change_key(&wrong, &new, &sealed), Err(CipherError::Authentication));
}

#[test]
fn first_load_finds_no_tasks() {
    assert_eq!(todotui::codec::open_store(None, &local()), Ok(None));
    let pw = KeyMaterial::Password("pw".to_string());
    assert_eq!(todotui::codec::open_store(None, &pw), Ok(None));
}

#[test]
fn saved_store_loads_back_with_right_password_only() {
    let pw = KeyMaterial::Password("secret".to_string());
    let sealed = encrypt_tasks(&pw, &payload()).unwrap();
    assert_eq!(todotui::codec::open_store(Some(sealed.clone()), &pw), Ok(Some(payload())));
    let wrong = KeyMaterial::Password("Secret".to_string());
    assert_eq!(todotui::codec::open_store(Some(sealed), &wrong), Err(CipherError::Authentication));
}

#[test]
fn stores_too_short_for_a_tag_fail_authentication() {
    for len in [NONCE_LEN, NONCE_LEN + 1, NONCE_LEN + TAG_LEN - 1] {
        assert_eq!(decrypt_tasks(&local(), &vec![5u8; len]), Err(CipherError::Authentication), "len {}", len);
    }
    let pw = KeyMaterial::Password("pw".to_string());
    for len in [SALT_LEN + NONCE_LEN, SALT_LEN + NONCE_LEN + TAG_LEN - 1] {
        assert_eq!(decrypt_tasks(&pw, &vec![5u8; len]), Err(CipherError::Authentication), "len {}", len);
    }
}

#[test]
fn key_of_bytes_keeps_the_bytes() {
    let bytes: Vec<u8> = (0..32).collect();
    let key = key_of_bytes(&bytes);
    assert_eq!(key.bytes.to_vec(), bytes);
    assert_eq!(generate_key().bytes.len(), KEY_LEN);
}
