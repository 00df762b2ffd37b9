use redust::config::RedustConfig;
use redust::frame::FrameBuffer;
use redust::memory::{Expiry, MemoryDb};
use redust::value::Value;

#[test]
fn frame_buffer_waits_for_terminator() {
    let mut fb = FrameBuffer::new(64);
    assert!(fb.push(b"GET\nx"));
    assert!(fb.next_frame().is_none());
    assert!(fb.push(b";SET"));
    assert_eq!(fb.next_frame().unwrap(), b"GET\nx;".to_vec());
    assert!(fb.next_frame().is_none());
}

#[test]
fn frame_buffer_splits_several_frames() {
    let mut fb = FrameBuffer::new(64);
    assert!(fb.push(b"A;B;C"));
    assert_eq!(fb.next_frame().unwrap(), b"A;".to_vec());
    assert_eq!(fb.next_frame().unwrap(), b"B;".to_vec());
    assert!(fb.next_frame().is_none());
    assert!(fb.push(b";"));
    assert_eq!(fb.next_frame().unwrap(), b"C;".to_vec());
}

#[test]
fn frame_buffer_refuses_overflow() {
    let mut fb = FrameBuffer::new(4);
    assert!(fb.push(b"abcd"));
    assert!(!fb.push(b"e"));
    assert!(fb.next_frame().is_none());
}

#[test]
fn store_ttl_semantics() {
    let mut db = MemoryDb::new();
    let k = "k".to_string();
    assert_eq!(db.get_ttl(&k, 100), -2);
    db.set(k.clone(), Value::Int(1), 100);
    assert_eq!(db.get_ttl(&k, 100), -1);
    db.set_ttl(&k, Expiry::At(110));
    assert_eq!(db.get_ttl(&k, 104), 6);
    assert_eq!(db.get_ttl(&k, 110), 0);
    assert!(db.has_key(&k));
    assert_eq!(db.get_ttl(&k, 111), -2);
    assert!(!db.has_key(&k));
}

#[test]
fn store_rename_copy_remove() {
    let mut db = MemoryDb::new();
    let a = "a".to_string();
    let b = "b".to_string();
    db.set(a.clone(), Value::Str("v".to_string()), 1);
    db.copy(&a, &b);
    assert!(matches!(db.get(&b, 1), Some(Value::Str(s)) if s == "v"));
    db.remove(&a);
    assert!(db.get(&a, 1).is_none());
    db.rename(&b, &a);
    assert!(!db.has_key(&b));
    assert!(matches!(db.get(&a, 1), Some(Value::Str(s)) if s == "v"));
}

#[test]
fn value_text() {
    assert_eq!(Value::Int(-305).to_string().unwrap(), "-305");
    assert_eq!(Value::Bool(true).to_string().unwrap(), "true");
    assert_eq!(Value::Str("abc".to_string()).to_string().unwrap(), "abc");
    assert!(Value::Float(0).to_string().is_none());
}

#[test]
fn config_fields_and_defaults() {
    let c = RedustConfig::from_toml("password = \"hunter\"\naddress = \"0.0.0.0:7000\"\n").unwrap();
    assert_eq!(c.admin_password, "hunter");
    assert_eq!(c.address, "0.0.0.0:7000");
    let d = RedustConfig::from_toml("").unwrap();
    assert_eq!(d.admin_password, "password");
    assert_eq!(d.address, "localhost:6969");
    let e = RedustConfig::from_toml("password = 5\n").unwrap();
    assert_eq!(e.admin_password, "password");
    assert!(RedustConfig::from_toml("password = ").is_none());
}
