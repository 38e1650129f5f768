//! Handshake frames and password hashing on concrete values.

use echolite::codec::{FrameReader, FrameWriter};
use echolite::consts::{
    SQLITE_OPEN_CREATE, SQLITE_OPEN_NOMUTEX, SQLITE_OPEN_READWRITE, SQLITE_OPEN_URI,
};
use echolite::flags::Flags;
use echolite::handshake::{
    check_version, read_auth_password, read_connect, read_hash_params, read_protocol_version,
    read_salt, write_connect, write_hash_params, write_protocol_version, write_salt, Params,
};
use echolite::hash::{ct_eq, rand_salt, to_hash_password, Password};
use echolite::session::auth_response;
use echolite::status::{read_status, Status};
use echolite::Error;

/// Small costs so a test derivation stays quick.
fn quick_params() -> Params {
    Params { m_cost: 8, t_cost: 1, p_cost: 1 }
}

#[test]
fn server_greets_with_version_one_zero() {
    let mut w = FrameWriter::new();
    write_protocol_version(&mut w);
    assert_eq!(w.buf, vec![1, 0]);
    let mut r = FrameReader::new(&w.buf);
    let v = read_protocol_version(&mut r).unwrap();
    assert_eq!(v.major, 1);
    assert_eq!(v.minor, 0);
    assert!(check_version(v).is_ok());
}

#[test]
fn other_major_version_rejected() {
    let bytes = vec![2u8, 5];
    let mut r = FrameReader::new(&bytes);
    let v = read_protocol_version(&mut r).unwrap();
    assert!(matches!(
        check_version(v),
        Err(Error::UnsupportedVersion(2, 5))
    ));
}

#[test]
fn salt_round_trip() {
    let salt = rand_salt();
    assert_eq!(salt.len(), 16);
    let mut w = FrameWriter::new();
    write_salt(&mut w, &salt);
    assert_eq!(w.buf, salt);
    let mut r = FrameReader::new(&w.buf);
    assert_eq!(read_salt(&mut r).unwrap(), salt);
}

#[test]
fn params_round_trip_and_default() {
    let p = Params::default();
    assert_eq!(p.m_cost, 65536);
    assert_eq!(p.t_cost, 8);
    assert_eq!(p.p_cost, 1);
    let mut w = FrameWriter::new();
    write_hash_params(&mut w, p);
    let mut r = FrameReader::new(&w.buf);
    let got = read_hash_params(&mut r).unwrap();
    assert_eq!(got, p);
}

#[test]
fn params_over_32_bits_rejected() {
    let mut w = FrameWriter::new();
    w.write_len(u32::MAX as u64 + 1);
    w.write_len(8);
    w.write_len(1);
    let mut r = FrameReader::new(&w.buf);
    assert!(matches!(read_hash_params(&mut r), Err(Error::Argon2Params)));
}

#[test]
fn default_flags_bits() {
    let f = Flags::default();
    assert_eq!(
        f.bits(),
        SQLITE_OPEN_READWRITE | SQLITE_OPEN_CREATE | SQLITE_OPEN_NOMUTEX | SQLITE_OPEN_URI
    );
    assert!(f.contains(SQLITE_OPEN_CREATE));
    assert!(!f.contains(0x1));
}

#[test]
fn flags_set_and_clear() {
    let mut f = Flags::empty();
    assert_eq!(f.bits(), 0);
    f.set(SQLITE_OPEN_READWRITE, true);
    assert!(f.contains(SQLITE_OPEN_READWRITE));
    f.set(SQLITE_OPEN_READWRITE, false);
    assert_eq!(f.bits(), 0);
    assert_eq!(Flags::from_flags(0x46).bits(), 0x46);
}

#[test]
fn connect_round_trip() {
    let mut w = FrameWriter::new();
    write_connect(&mut w, ":memory:", Flags::default());
    let mut r = FrameReader::new(&w.buf);
    let (path, flags) = read_connect(&mut r).unwrap();
    assert_eq!(path, ":memory:");
    assert_eq!(flags.bits(), Flags::default().bits());
}

#[test]
fn client_and_server_compute_the_same_hash() {
    let client_salt = rand_salt();
    let server_salt = rand_salt();
    let params = quick_params();
    // What an honest client sends.
    let sent = to_hash_password("hunter2", &client_salt, &server_salt, params).unwrap();
    assert_eq!(sent.len(), 32);
    // The digest is deterministic in its inputs.
    let again = to_hash_password("hunter2", &client_salt, &server_salt, params).unwrap();
    assert_eq!(sent, again);
    // The server, recomputing from its configured password, agrees.
    let configured = Password::from_str("hunter2");
    assert!(configured
        .verify(&client_salt, &server_salt, params, &sent)
        .unwrap());
}

#[test]
fn default_params_hash_verifies() {
    let client_salt = rand_salt();
    let server_salt = rand_salt();
    let params = Params::default();
    let sent = to_hash_password("pw", &client_salt, &server_salt, params).unwrap();
    let configured = Password::from_str("pw");
    assert!(configured
        .verify(&client_salt, &server_salt, params, &sent)
        .unwrap());
}

#[test]
fn fresh_server_salt_changes_the_hash() {
    let client_salt = rand_salt();
    let params = quick_params();
    let first = to_hash_password("pw", &client_salt, &rand_salt(), params).unwrap();
    let second = to_hash_password("pw", &client_salt, &rand_salt(), params).unwrap();
    // A replay of `first` under the second salt fails verification.
    let configured = Password::from_str("pw");
    assert_ne!(first, second);
    assert!(!configured
        .verify(&client_salt, &rand_salt(), params, &first)
        .unwrap());
}

#[test]
fn empty_password_still_derives() {
    let client_salt = rand_salt();
    let server_salt = rand_salt();
    let params = quick_params();
    let configured = Password::from_str("");
    assert!(configured.is_empty());
    // The right (empty) password verifies only through the derivation...
    let sent = to_hash_password("", &client_salt, &server_salt, params).unwrap();
    assert_ne!(sent, vec![0u8; 32]);
    assert!(configured
        .verify(&client_salt, &server_salt, params, &sent)
        .unwrap());
    // ...and raw zero bytes do not pass.
    assert!(!configured
        .verify(&client_salt, &server_salt, params, &vec![0u8; 32])
        .unwrap());
}

#[test]
fn constant_time_compare_agrees_with_equality() {
    assert!(ct_eq(&vec![1, 2, 3], &vec![1, 2, 3]));
    assert!(!ct_eq(&vec![1, 2, 3], &vec![1, 2, 4]));
    assert!(!ct_eq(&vec![0, 2, 3], &vec![1, 2, 3]));
    assert!(ct_eq(&vec![], &vec![]));
}

#[test]
fn wrong_password_fails_and_session_closes() {
    let client_salt = rand_salt();
    let server_salt = rand_salt();
    let params = quick_params();
    // The client authenticates with the wrong password.
    let sent = to_hash_password("wrong", &client_salt, &server_salt, params).unwrap();
    let configured = Password::from_str("right");
    let ok = configured
        .verify(&client_salt, &server_salt, params, &sent)
        .unwrap();
    assert!(!ok);
    let (bytes, proceed) = auth_response(ok);
    assert!(!proceed);
    let mut r = FrameReader::new(&bytes);
    match read_status(&mut r).unwrap() {
        Status::Failed(m) => assert_eq!(m, "Password verification failed"),
        _ => panic!("expected a failure status"),
    }
    assert_eq!(r.pos, bytes.len());
}

#[test]
fn hashed_password_frame_round_trip() {
    let client_salt = rand_salt();
    let server_salt = rand_salt();
    let params = quick_params();
    let mut w = FrameWriter::new();
    echolite::hash::write_auth_password(&mut w, "pw", &client_salt, &server_salt, params).unwrap();
    assert_eq!(w.buf.len(), 32);
    let mut r = FrameReader::new(&w.buf);
    let got = read_auth_password(&mut r).unwrap();
    assert_eq!(got, w.buf);
}

#[test]
fn password_clear_wipes() {
    let mut p = Password::from_str("secret");
    assert!(!p.is_empty());
    p.clear();
    assert!(p.is_empty());
}
