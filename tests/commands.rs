use redust::client_state::ClientState;
use redust::commands::{CommandsEval, FloatTask, Outcome};
use redust::value::Value;

const NOW: i64 = 1_700_000_000;

fn finish(ev: &mut CommandsEval, out: Outcome, now: i64) -> String {
    match out {
        Outcome::Reply(s) => s,
        Outcome::Float(FloatTask::Render(bits)) => f32::from_bits(bits).to_string(),
        Outcome::Float(FloatTask::Store { key, literal }) => {
            let bits = literal.parse::<f32>().ok().map(|f| f.to_bits());
            ev.store_float(key, bits, now)
        }
        Outcome::Float(FloatTask::Shift { key, current, delta, down }) => {
            let d = delta.parse::<f32>().ok();
            match current {
                Value::Int(i) => ev.apply_int_delta(key, i, d.map(|d| d as i32), down, now),
                Value::Float(b) => {
                    let f = f32::from_bits(b);
                    let bits = d.map(|d| if down { f - d } else { f + d }.to_bits());
                    ev.store_float(key, bits, now)
                }
                _ => panic!("a shift is only handed out for numbers"),
            }
        }
    }
}

fn send(ev: &mut CommandsEval, st: &mut ClientState, frame: &str, now: i64) -> String {
    let out = ev.eval(frame, st, now);
    finish(ev, out, now)
}

fn session() -> (CommandsEval, ClientState) {
    let mut ev = CommandsEval::new("password".to_string());
    let mut st = ClientState::new();
    assert_eq!(send(&mut ev, &mut st, "AUTH\npassword;", NOW), "OK");
    (ev, st)
}

#[test]
fn end_to_end_increment() {
    let mut ev = CommandsEval::new("password".to_string());
    let mut st = ClientState::new();
    assert_eq!(send(&mut ev, &mut st, "AUTH\npassword;", NOW), "OK");
    assert_eq!(send(&mut ev, &mut st, "SET\nINT\nx\n5;", NOW), "OK");
    assert_eq!(send(&mut ev, &mut st, "INCREMENT\nx\n3;", NOW), "OK");
    assert_eq!(send(&mut ev, &mut st, "GET\nx;", NOW), "8");
}

#[test]
fn set_then_get_each_type() {
    let (mut ev, mut st) = session();
    assert_eq!(send(&mut ev, &mut st, "SET\nINT\na\n-42;", NOW), "OK");
    assert_eq!(send(&mut ev, &mut st, "GET\na;", NOW), "-42");
    assert_eq!(send(&mut ev, &mut st, "SET\nFLOAT\nb\n2.5;", NOW), "OK");
    assert_eq!(send(&mut ev, &mut st, "GET\nb;", NOW), "2.5");
    assert_eq!(send(&mut ev, &mut st, "SET\nSTRING\nc\nhello world;", NOW), "OK");
    assert_eq!(send(&mut ev, &mut st, "GET\nc;", NOW), "hello world");
    assert_eq!(send(&mut ev, &mut st, "SET\nBOOL\nd\ntrue;", NOW), "OK");
    assert_eq!(send(&mut ev, &mut st, "GET\nd;", NOW), "true");
    assert_eq!(send(&mut ev, &mut st, "SET\nBOOL\nd\nfalse;", NOW), "OK");
    assert_eq!(send(&mut ev, &mut st, "GET\nd;", NOW), "false");
}

#[test]
fn int_extremes_round_trip() {
    let (mut ev, mut st) = session();
    assert_eq!(send(&mut ev, &mut st, "SET\nINT\nx\n2147483647;", NOW), "OK");
    assert_eq!(send(&mut ev, &mut st, "GET\nx;", NOW), "2147483647");
    assert_eq!(send(&mut ev, &mut st, "SET\nINT\nx\n-2147483648;", NOW), "OK");
    assert_eq!(send(&mut ev, &mut st, "GET\nx;", NOW), "-2147483648");
    assert_eq!(send(&mut ev, &mut st, "SET\nINT\nx\n+07;", NOW), "OK");
    assert_eq!(send(&mut ev, &mut st, "GET\nx;", NOW), "7");
    assert_eq!(send(&mut ev, &mut st, "SET\nINT\nx\n2147483648;", NOW), "Invalid value");
    assert_eq!(send(&mut ev, &mut st, "GET\nx;", NOW), "7");
}

#[test]
fn malformed_literals_are_refused() {
    let (mut ev, mut st) = session();
    assert_eq!(send(&mut ev, &mut st, "SET\nINT\nx\nfive;", NOW), "Invalid value");
    assert_eq!(send(&mut ev, &mut st, "SET\nBOOL\nx\nyes;", NOW), "Invalid value");
    assert_eq!(send(&mut ev, &mut st, "SET\nFLOAT\nx\nabc;", NOW), "Invalid value");
    assert_eq!(send(&mut ev, &mut st, "SET\nLIST\nx\n1;", NOW), "Invalid type");
    assert_eq!(send(&mut ev, &mut st, "GET\nx;", NOW), "Key does not exist");
}

#[test]
fn get_missing_and_deleted() {
    let (mut ev, mut st) = session();
    assert_eq!(send(&mut ev, &mut st, "GET\nnever;", NOW), "Key does not exist");
    assert_eq!(send(&mut ev, &mut st, "SET\nSTRING\nk\nv;", NOW), "OK");
    assert_eq!(send(&mut ev, &mut st, "DEL\nk;", NOW), "OK");
    assert_eq!(send(&mut ev, &mut st, "GET\nk;", NOW), "Key does not exist");
}

#[test]
fn expire_then_ttl() {
    let (mut ev, mut st) = session();
    assert_eq!(send(&mut ev, &mut st, "SET\nINT\nk\n1;", NOW), "OK");
    assert_eq!(send(&mut ev, &mut st, "TTL\nk;", NOW), "-1");
    assert_eq!(send(&mut ev, &mut st, "EXPIRE\nk\n100;", NOW), "OK");
    assert_eq!(send(&mut ev, &mut st, "TTL\nk;", NOW), "100");
    assert_eq!(send(&mut ev, &mut st, "TTL\nk;", NOW + 1), "99");
    assert_eq!(send(&mut ev, &mut st, "EXPIRETIME\nk;", NOW + 1), "99");
    assert_eq!(send(&mut ev, &mut st, "EXPIRE\nmissing\n10;", NOW), "Key does not exist");
    assert_eq!(send(&mut ev, &mut st, "EXPIRE\nk\nsoon;", NOW), "Invalid value");
    assert_eq!(send(&mut ev, &mut st, "EXPIRE\nk\n9223372036854775807;", NOW), "Invalid value");
}

#[test]
fn persist_clears_expiry() {
    let (mut ev, mut st) = session();
    assert_eq!(send(&mut ev, &mut st, "SET\nINT\nk\n1;", NOW), "OK");
    assert_eq!(send(&mut ev, &mut st, "EXPIRE\nk\n5;", NOW), "OK");
    assert_eq!(send(&mut ev, &mut st, "PERSIST\nk;", NOW), "OK");
    assert_eq!(send(&mut ev, &mut st, "TTL\nk;", NOW + 1000), "-1");
    assert_eq!(send(&mut ev, &mut st, "PERSIST\nmissing;", NOW), "Key does not exist");
}

#[test]
fn expired_key_is_dropped() {
    let (mut ev, mut st) = session();
    assert_eq!(send(&mut ev, &mut st, "SET\nINT\nk\n1;", NOW), "OK");
    assert_eq!(send(&mut ev, &mut st, "EXPIRE\nk\n2;", NOW), "OK");
    assert_eq!(send(&mut ev, &mut st, "TTL\nk;", NOW + 3), "-2");
    assert_eq!(send(&mut ev, &mut st, "GET\nk;", NOW + 3), "Key does not exist");
    assert_eq!(send(&mut ev, &mut st, "EXISTS\nk;", NOW), "0");
}

#[test]
fn get_on_expired_key_reports_absence() {
    let (mut ev, mut st) = session();
    assert_eq!(send(&mut ev, &mut st, "SET\nINT\nk\n1;", NOW), "OK");
    assert_eq!(send(&mut ev, &mut st, "EXPIRE\nk\n0;", NOW), "OK");
    assert_eq!(send(&mut ev, &mut st, "GET\nk;", NOW), "1");
    assert_eq!(send(&mut ev, &mut st, "GET\nk;", NOW + 1), "Key does not exist");
}

#[test]
fn rename_moves_value() {
    let (mut ev, mut st) = session();
    assert_eq!(send(&mut ev, &mut st, "SET\nSTRING\na\nhello;", NOW), "OK");
    assert_eq!(send(&mut ev, &mut st, "RENAME\na\nb;", NOW), "OK");
    assert_eq!(send(&mut ev, &mut st, "GET\na;", NOW), "Key does not exist");
    assert_eq!(send(&mut ev, &mut st, "GET\nb;", NOW), "hello");
    assert_eq!(send(&mut ev, &mut st, "RENAME\nnothing\nc;", NOW), "OK");
    assert_eq!(send(&mut ev, &mut st, "GET\nc;", NOW), "Key does not exist");
    assert_eq!(send(&mut ev, &mut st, "GET\nb;", NOW), "hello");
}

#[test]
fn copy_duplicates_value() {
    let (mut ev, mut st) = session();
    assert_eq!(send(&mut ev, &mut st, "SET\nFLOAT\na\n1.25;", NOW), "OK");
    assert_eq!(send(&mut ev, &mut st, "COPY\na\nb;", NOW), "OK");
    assert_eq!(send(&mut ev, &mut st, "GET\na;", NOW), "1.25");
    assert_eq!(send(&mut ev, &mut st, "GET\nb;", NOW), "1.25");
    assert_eq!(send(&mut ev, &mut st, "COPY\nnothing\nb;", NOW), "OK");
    assert_eq!(send(&mut ev, &mut st, "GET\nb;", NOW), "1.25");
}

#[test]
fn del_mixed_keys() {
    let (mut ev, mut st) = session();
    assert_eq!(send(&mut ev, &mut st, "SET\nINT\na\n1;", NOW), "OK");
    assert_eq!(send(&mut ev, &mut st, "SET\nINT\nc\n3;", NOW), "OK");
    assert_eq!(send(&mut ev, &mut st, "SET\nINT\nd\n4;", NOW), "OK");
    assert_eq!(send(&mut ev, &mut st, "DEL\na\nb\nc;", NOW), "OK");
    assert_eq!(send(&mut ev, &mut st, "EXISTS\na\nb\nc\nd;", NOW), "1");
    assert_eq!(send(&mut ev, &mut st, "GET\nd;", NOW), "4");
    assert_eq!(send(&mut ev, &mut st, "DEL;", NOW), "Invalid command");
}

#[test]
fn exists_counts_live_keys() {
    let (mut ev, mut st) = session();
    assert_eq!(send(&mut ev, &mut st, "SET\nINT\na\n1;", NOW), "OK");
    assert_eq!(send(&mut ev, &mut st, "SET\nINT\nb\n2;", NOW), "OK");
    assert_eq!(send(&mut ev, &mut st, "EXISTS\na\nb;", NOW), "2");
    assert_eq!(send(&mut ev, &mut st, "EXISTS\na\nzz\na;", NOW), "2");
    assert_eq!(send(&mut ev, &mut st, "EXISTS\nzz;", NOW), "0");
}

#[test]
fn sets_from_many_sessions_all_visible() {
    let mut ev = CommandsEval::new("password".to_string());
    let mut sessions: Vec<ClientState> = (0..4).map(|_| ClientState::new()).collect();
    for st in sessions.iter_mut() {
        assert_eq!(send(&mut ev, st, "AUTH\npassword;", NOW), "OK");
    }
    for (i, st) in sessions.iter_mut().enumerate() {
        let frame = format!("SET\nINT\nk{}\n{};", i, i * 10);
        assert_eq!(send(&mut ev, st, &frame, NOW), "OK");
    }
    for i in 0..4 {
        let frame = format!("GET\nk{};", i);
        assert_eq!(send(&mut ev, &mut sessions[0], &frame, NOW), (i * 10).to_string());
    }
}

#[test]
fn auth_gate() {
    let mut ev = CommandsEval::new("s3cret".to_string());
    let mut st = ClientState::new();
    assert_eq!(send(&mut ev, &mut st, "GET\nx;", NOW), "Not authenticated");
    assert_eq!(send(&mut ev, &mut st, "AUTH\npassword;", NOW), "Invalid password");
    assert!(!st.auth);
    assert_eq!(send(&mut ev, &mut st, "AUTH;", NOW), "Invalid command");
    assert_eq!(send(&mut ev, &mut st, "AUTH\ns3cret;", NOW), "OK");
    assert!(st.auth);
    assert_eq!(send(&mut ev, &mut st, "GET\nx;", NOW), "Key does not exist");
}

#[test]
fn malformed_frames() {
    let (mut ev, mut st) = session();
    assert_eq!(send(&mut ev, &mut st, "", NOW), "Invalid command");
    assert_eq!(send(&mut ev, &mut st, "GET\nx", NOW), "Invalid command");
    assert_eq!(send(&mut ev, &mut st, "FETCH\nx;", NOW), "Invalid command");
    assert_eq!(send(&mut ev, &mut st, "get\nx;", NOW), "Invalid command");
    assert_eq!(send(&mut ev, &mut st, "GET\nx\ny;", NOW), "Invalid command");
    assert_eq!(send(&mut ev, &mut st, "SET\nINT\nx;", NOW), "Invalid command");
    assert_eq!(send(&mut ev, &mut st, "EXPIRETIME\nx\n1;", NOW), "Invalid command");
}

#[test]
fn tokens_are_trimmed() {
    let (mut ev, mut st) = session();
    assert_eq!(send(&mut ev, &mut st, "  SET\r\nINT \n k\n 12 \n;", NOW), "OK");
    assert_eq!(send(&mut ev, &mut st, "\nGET\r\nk  ;", NOW), "12");
}

#[test]
fn increment_and_decrement() {
    let (mut ev, mut st) = session();
    assert_eq!(send(&mut ev, &mut st, "SET\nINT\ni\n10;", NOW), "OK");
    assert_eq!(send(&mut ev, &mut st, "INCREMENT\ni\n3.9;", NOW), "OK");
    assert_eq!(send(&mut ev, &mut st, "GET\ni;", NOW), "13");
    assert_eq!(send(&mut ev, &mut st, "DECREMENT\ni\n-2.5;", NOW), "OK");
    assert_eq!(send(&mut ev, &mut st, "GET\ni;", NOW), "15");
    assert_eq!(send(&mut ev, &mut st, "SET\nFLOAT\nf\n1.5;", NOW), "OK");
    assert_eq!(send(&mut ev, &mut st, "DECREMENT\nf\n0.25;", NOW), "OK");
    assert_eq!(send(&mut ev, &mut st, "GET\nf;", NOW), "1.25");
    assert_eq!(send(&mut ev, &mut st, "SET\nSTRING\ns\nx;", NOW), "OK");
    assert_eq!(send(&mut ev, &mut st, "INCREMENT\ns\n1;", NOW), "Invalid type");
    assert_eq!(send(&mut ev, &mut st, "INCREMENT\nmissing\n1;", NOW), "Key does not exist");
    assert_eq!(send(&mut ev, &mut st, "INCREMENT\ni\nlots;", NOW), "Invalid value");
    assert_eq!(send(&mut ev, &mut st, "GET\ni;", NOW), "15");
}

#[test]
fn increment_overflow_is_refused() {
    let (mut ev, mut st) = session();
    assert_eq!(send(&mut ev, &mut st, "SET\nINT\ni\n2147483647;", NOW), "OK");
    assert_eq!(send(&mut ev, &mut st, "INCREMENT\ni\n1;", NOW), "Invalid value");
    assert_eq!(send(&mut ev, &mut st, "GET\ni;", NOW), "2147483647");
}

#[test]
fn set_resets_expiry() {
    let (mut ev, mut st) = session();
    assert_eq!(send(&mut ev, &mut st, "SET\nINT\nk\n1;", NOW), "OK");
    assert_eq!(send(&mut ev, &mut st, "EXPIRE\nk\n5;", NOW), "OK");
    assert_eq!(send(&mut ev, &mut st, "SET\nINT\nk\n2;", NOW), "OK");
    assert_eq!(send(&mut ev, &mut st, "TTL\nk;", NOW), "-1");
}
