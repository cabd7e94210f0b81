use ocj::auth::{gen_token, hash, Ip, Service};
use ocj::config::Secure;
use ocj::error::{AuthError, OcjError};

const KEY: &str = "SECRET-REDACTED";

#[test]
fn hash_of_empty_string_is_the_low_half_of_its_sha256() {
    // SHA-256("") begins e3 b0 c4 42 98 fc 1c 14 9a fb f4 c8 99 6f b9 24;
    // those 16 bytes read little-endian:
    assert_eq!(hash(""), 0x24b96f99c8f4fb9a141cfc9842c4b0e3u128);
}

#[test]
fn hash_of_abc_is_the_low_half_of_its_sha256() {
    // SHA-256("abc") begins ba 78 16 bf 8f 01 cf ea 41 41 40 de 5d ae 22 23.
    assert_eq!(hash("abc"), 0x2322ae5dde404141eacf018fbf1678bau128);
}

#[test]
fn gen_token_draws_fresh_values() {
    let a = gen_token().unwrap();
    let b = gen_token().unwrap();
    assert_ne!(a, b);
}

#[test]
fn login_with_wrong_key_is_rejected() {
    let mut service = Service::init(KEY);
    let r = service.login(Ip::V4(1), "not the key");
    assert!(matches!(r, Err(OcjError::Auth(AuthError::IncorrectKey))));
}

#[test]
fn login_then_check_round_trip() {
    let mut service = Service::init(KEY);
    let ip = Ip::V4(0x7f000001);
    let token = service.login(ip, KEY).unwrap();
    assert!(service.check_token(ip, token).is_ok());
}

#[test]
fn check_without_login_is_ip_not_found() {
    let mut service = Service::init(KEY);
    let ip = Ip::V4(1);
    let other = Ip::V6(1);
    let token = service.login(ip, KEY).unwrap();
    assert!(matches!(
        service.check_token(other, token),
        Err(OcjError::Auth(AuthError::IpNotFound))
    ));
}

#[test]
fn second_login_invalidates_the_first_token() {
    let mut service = Service::init(KEY);
    let ip = Ip::V4(0x0a000001);
    let first = service.login(ip, KEY).unwrap();
    let second = service.login(ip, KEY).unwrap();
    assert_ne!(first, second);
    assert!(matches!(
        service.check_token(ip, first),
        Err(OcjError::Auth(AuthError::IncorrectToken))
    ));
    assert!(service.check_token(ip, second).is_ok());
}

#[test]
fn logins_from_different_ips_do_not_disturb_each_other() {
    let mut service = Service::init(KEY);
    let a = Ip::V4(1);
    let b = Ip::V4(2);
    let ta = service.login(a, KEY).unwrap();
    let tb = service.login(b, KEY).unwrap();
    assert!(service.check_token(a, ta).is_ok());
    assert!(service.check_token(b, tb).is_ok());
}

#[test]
fn unwrap_secure_hands_back_the_payload_only_on_a_good_token() {
    let mut service = Service::init(KEY);
    let ip = Ip::V4(9);
    let token = service.login(ip, KEY).unwrap();
    let payload = service.unwrap_secure(ip, Secure { token, msg: 42u32 });
    assert_eq!(payload.unwrap(), 42);
    let bad = ocj::config::Token(token.0.wrapping_add(1));
    let denied = service.unwrap_secure(ip, Secure { token: bad, msg: 42u32 });
    assert!(matches!(denied, Err(OcjError::Auth(AuthError::IncorrectToken))));
}
