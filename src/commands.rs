//! The command evaluator. A frame is split into newline-separated tokens;
//! `AUTH` sets the connection's authentication bit, every other command needs
//! it. Malformed numbers and booleans, and results out of range, are answered
//! with "Invalid value" and change nothing.

use vstd::prelude::*;

use crate::client_state::ClientState;
use crate::frame::{frame_ok, split_lines, tokenize, tokens_of, trim, views};
use crate::memory::{purged, ttl_of, EntryModel, Expiry, MemoryDb};
use crate::text::{chars_of, is_word, string_of, text};
use crate::value::{
    bool_literal, i32_literal, i64_literal, int_text, int_to_chars, parse_bool, parse_i32,
    parse_i64, push_decimal, Value, ValueModel,
};

verus! {

/// Work on a 32-bit float that the caller performs, while it still holds the
/// evaluator, to finish a command.
pub enum FloatTask {
    /// `GET` found this float: the reply is its text.
    Render(u32),
    /// `SET FLOAT`: parse `literal`, then hand the bits to `store_float`.
    Store { key: String, literal: String },
    /// `INCREMENT` (`down` false) or `DECREMENT` (`down` true) of the number
    /// `current` held under `key`, by `delta` parsed as a float. For an
    /// integer, finish with `apply_int_delta`; for a float, with `store_float`.
    Shift { key: String, current: Value, delta: String, down: bool },
}

/// What evaluating a frame yields.
pub enum Outcome {
    Reply(String),
    Float(FloatTask),
}

pub enum OutcomeModel {
    Reply(Seq<char>),
    Render(u32),
    Store(Seq<char>, Seq<char>),
    Shift(Seq<char>, ValueModel, Seq<char>, bool),
}

impl View for Outcome {
    type V = OutcomeModel;

    open spec fn view(&self) -> OutcomeModel {
        match self {
            Outcome::Reply(s) => OutcomeModel::Reply(s@),
            Outcome::Float(FloatTask::Render(b)) => OutcomeModel::Render(*b),
            Outcome::Float(FloatTask::Store { key, literal }) => OutcomeModel::Store(
                key@,
                literal@,
            ),
            Outcome::Float(FloatTask::Shift { key, current, delta, down }) => OutcomeModel::Shift(
                key@,
                current@,
                delta@,
                *down,
            ),
        }
    }
}

pub type Db = Map<Seq<char>, EntryModel>;

pub open spec fn reply(s: &str) -> OutcomeModel {
    OutcomeModel::Reply(s@)
}

/// A fresh entry for `SET`.
pub open spec fn fresh(v: ValueModel, now: i64) -> EntryModel {
    EntryModel { expiry: Expiry::Never, last_modified: now, last_accessed: now, value: v }
}

/// What `GET` replies for a stored value.
pub open spec fn value_out(v: ValueModel) -> OutcomeModel {
    match v {
        ValueModel::Int(i) => OutcomeModel::Reply(int_text(i as int)),
        ValueModel::Float(b) => OutcomeModel::Render(b),
        ValueModel::Str(s) => OutcomeModel::Reply(s),
        ValueModel::Bool(b) => if b { reply("true") } else { reply("false") },
    }
}

pub open spec fn get_model(m: Db, k: Seq<char>, now: i64) -> (Db, OutcomeModel) {
    let p = purged(m, k, now);
    if p.contains_key(k) {
        (p.insert(k, EntryModel { last_accessed: now, ..p[k] }), value_out(p[k].value))
    } else {
        (p, reply("Key does not exist"))
    }
}

pub open spec fn set_model(m: Db, ty: Seq<char>, k: Seq<char>, lit: Seq<char>, now: i64) -> (
    Db,
    OutcomeModel,
) {
    if ty == seq!['I', 'N', 'T'] {
        match i32_literal(lit) {
            Some(i) => (m.insert(k, fresh(ValueModel::Int(i), now)), reply("OK")),
            None => (m, reply("Invalid value")),
        }
    } else if ty == seq!['F', 'L', 'O', 'A', 'T'] {
        (m, OutcomeModel::Store(k, lit))
    } else if ty == seq!['S', 'T', 'R', 'I', 'N', 'G'] {
        (m.insert(k, fresh(ValueModel::Str(lit), now)), reply("OK"))
    } else if ty == seq!['B', 'O', 'O', 'L'] {
        match bool_literal(lit) {
            Some(b) => (m.insert(k, fresh(ValueModel::Bool(b), now)), reply("OK")),
            None => (m, reply("Invalid value")),
        }
    } else {
        (m, reply("Invalid type"))
    }
}

pub open spec fn shift_model(m: Db, k: Seq<char>, delta: Seq<char>, down: bool, now: i64) -> (
    Db,
    OutcomeModel,
) {
    let p = purged(m, k, now);
    if !p.contains_key(k) {
        (p, reply("Key does not exist"))
    } else {
        match p[k].value {
            ValueModel::Int(_) => (p, OutcomeModel::Shift(k, p[k].value, delta, down)),
            ValueModel::Float(_) => (p, OutcomeModel::Shift(k, p[k].value, delta, down)),
            _ => (p, reply("Invalid type")),
        }
    }
}

pub open spec fn rename_map(m: Db, a: Seq<char>, b: Seq<char>) -> Db {
    if m.contains_key(a) {
        m.remove(a).insert(b, m[a])
    } else {
        m
    }
}

pub open spec fn copy_map(m: Db, a: Seq<char>, b: Seq<char>) -> Db {
    if m.contains_key(a) {
        m.insert(b, m[a])
    } else {
        m
    }
}

/// The store with every listed key removed.
pub open spec fn remove_all(m: Db, keys: Seq<Seq<char>>) -> Db
    decreases keys.len(),
{
    if keys.len() == 0 {
        m
    } else {
        remove_all(m, keys.drop_last()).remove(keys.last())
    }
}

/// How many of the listed keys are live at `now`, a key counted each time it
/// is listed.
pub open spec fn live_count(m: Db, keys: Seq<Seq<char>>, now: i64) -> nat
    decreases keys.len(),
{
    if keys.len() == 0 {
        0
    } else {
        live_count(m, keys.drop_last(), now) + if ttl_of(m, keys.last(), now) != -2 {
            1nat
        } else {
            0nat
        }
    }
}

pub open spec fn expire_model(m: Db, k: Seq<char>, secs: Seq<char>, now: i64) -> (
    Db,
    OutcomeModel,
) {
    match i64_literal(secs) {
        None => (m, reply("Invalid value")),
        Some(s) => if now + s > i64::MAX || now + s < i64::MIN {
            (m, reply("Invalid value"))
        } else {
            let p = purged(m, k, now);
            if p.contains_key(k) {
                (
                    p.insert(k, EntryModel { expiry: Expiry::At((now + s) as i64), ..p[k] }),
                    reply("OK"),
                )
            } else {
                (p, reply("Key does not exist"))
            }
        },
    }
}

pub open spec fn persist_model(m: Db, k: Seq<char>, now: i64) -> (Db, OutcomeModel) {
    let p = purged(m, k, now);
    if p.contains_key(k) {
        (p.insert(k, EntryModel { expiry: Expiry::Never, ..p[k] }), reply("OK"))
    } else {
        (p, reply("Key does not exist"))
    }
}

/// What an authenticated command does to the store, and its outcome.
pub open spec fn command_model(m: Db, t: Seq<Seq<char>>, now: i64) -> (Db, OutcomeModel) {
    let n = t.len();
    let name = t[0];
    if name == seq!['G', 'E', 'T'] && n == 2 {
        get_model(m, t[1], now)
    } else if name == seq!['S', 'E', 'T'] && n == 4 {
        set_model(m, t[1], t[2], t[3], now)
    } else if name == seq!['I', 'N', 'C', 'R', 'E', 'M', 'E', 'N', 'T'] && n == 3 {
        shift_model(m, t[1], t[2], false, now)
    } else if name == seq!['D', 'E', 'C', 'R', 'E', 'M', 'E', 'N', 'T'] && n == 3 {
        shift_model(m, t[1], t[2], true, now)
    } else if name == seq!['R', 'E', 'N', 'A', 'M', 'E'] && n == 3 {
        (rename_map(purged(m, t[1], now), t[1], t[2]), reply("OK"))
    } else if name == seq!['C', 'O', 'P', 'Y'] && n == 3 {
        (copy_map(purged(m, t[1], now), t[1], t[2]), reply("OK"))
    } else if name == seq!['D', 'E', 'L'] && n >= 2 {
        (remove_all(m, t.subrange(1, n as int)), reply("OK"))
    } else if name == seq!['E', 'X', 'I', 'S', 'T', 'S'] && n >= 2 {
        (m, OutcomeModel::Reply(int_text(live_count(m, t.subrange(1, n as int), now) as int)))
    } else if (name == seq!['T', 'T', 'L'] || name == seq![
        'E',
        'X',
        'P',
        'I',
        'R',
        'E',
        'T',
        'I',
        'M',
        'E',
    ]) && n == 2 {
        (purged(m, t[1], now), OutcomeModel::Reply(int_text(ttl_of(m, t[1], now))))
    } else if name == seq!['E', 'X', 'P', 'I', 'R', 'E'] && n == 3 {
        expire_model(m, t[1], t[2], now)
    } else if name == seq!['P', 'E', 'R', 'S', 'I', 'S', 'T'] && n == 2 {
        persist_model(m, t[1], now)
    } else {
        (m, reply("Invalid command"))
    }
}

/// The effect of one frame: the store after it, whether the connection is
/// authenticated after it, and the outcome.
pub open spec fn eval_model(m: Db, password: Seq<char>, auth: bool, frame: Seq<char>, now: i64) -> (
    Db,
    bool,
    OutcomeModel,
) {
    if !frame_ok(frame) {
        (m, auth, reply("Invalid command"))
    } else {
        let t = tokens_of(frame);
        if t[0] == seq!['A', 'U', 'T', 'H'] {
            if t.len() != 2 {
                (m, auth, reply("Invalid command"))
            } else if t[1] == password {
                (m, true, reply("OK"))
            } else {
                (m, auth, reply("Invalid password"))
            }
        } else if !auth {
            (m, auth, reply("Not authenticated"))
        } else {
            let (m2, out) = command_model(m, t, now);
            (m2, auth, out)
        }
    }
}

proof fn lemma_split_lines_len(s: Seq<char>)
    ensures
        split_lines(s).len() >= 1,
    decreases s.len(),
{
    if s.len() > 0 {
        lemma_split_lines_len(s.drop_last());
    }
}

fn reply_text(s: &str) -> (r: Outcome)
    ensures
        r@ == reply(s),
{
    Outcome::Reply(text(s))
}

/// The outcome of `GET` for a stored value.
fn render(v: Value) -> (r: Outcome)
    ensures
        r@ == value_out(v@),
{
    match v.to_string() {
        Some(t) => Outcome::Reply(t),
        None => match v {
            Value::Float(b) => Outcome::Float(FloatTask::Render(b)),
            _ => reply_text("Invalid type"),
        },
    }
}

/// Evaluates command frames for one store.
pub struct CommandsEval {
    admin_password: String,
    database: MemoryDb,
}

impl CommandsEval {
    pub closed spec fn wf(&self) -> bool {
        self.database.wf()
    }

    /// The contents of the store.
    pub closed spec fn store(&self) -> Db {
        self.database@
    }

    /// The password that `AUTH` accepts.
    pub closed spec fn password(&self) -> Seq<char> {
        self.admin_password@
    }

    /// An evaluator over an empty store.
    pub fn new(admin_password: String) -> (r: Self)
        ensures
            r.wf(),
            r.store() == Map::<Seq<char>, EntryModel>::empty(),
            r.password() == admin_password@,
    {
        CommandsEval { admin_password, database: MemoryDb::new() }
    }

    /// Evaluates one raw frame, its `;` included, at time `now` (seconds since
    /// the Unix epoch).
    pub fn eval(&mut self, command: &str, client_state: &mut ClientState, now: i64) -> (r: Outcome)
        requires
            old(self).wf(),
            now >= 0,
        ensures
            final(self).wf(),
            final(self).password() == old(self).password(),
            (final(self).store(), final(client_state).auth, r@) == eval_model(
                old(self).store(),
                old(self).password(),
                old(client_state).auth,
                command@,
                now,
            ),
    {
        let frame = chars_of(command);
        if frame.len() == 0 || frame[frame.len() - 1] != ';' {
            return reply_text("Invalid command");
        }
        let t = tokenize(&frame);
        proof {
            lemma_split_lines_len(frame@.drop_last());
            lemma_split_lines_len(trim(frame@.drop_last()));
        }
        assert(views(t@)[0] == t@[0]@);
        if is_word(&t[0], &['A', 'U', 'T', 'H']) {
            if t.len() != 2 {
                return reply_text("Invalid command");
            }
            assert(views(t@)[1] == t@[1]@);
            if string_of(&t[1]) == self.admin_password {
                client_state.auth = true;
                return reply_text("OK");
            }
            return reply_text("Invalid password");
        }
        if !client_state.auth {
            return reply_text("Not authenticated");
        }
        self.eval_command(&t, now)
    }

    fn eval_command(&mut self, t: &Vec<Vec<char>>, now: i64) -> (r: Outcome)
        requires
            old(self).wf(),
            t.len() >= 1,
            now >= 0,
        ensures
            final(self).wf(),
            final(self).password() == old(self).password(),
            (final(self).store(), r@) == command_model(old(self).store(), views(t@), now),
    {
        let n = t.len();
        let ghost v = views(t@);
        assert(forall|i: int| 0 <= i < n ==> v[i] == t@[i]@);
        if is_word(&t[0], &['G', 'E', 'T']) && n == 2 {
            let k = string_of(&t[1]);
            match self.database.get(&k, now) {
                None => reply_text("Key does not exist"),
                Some(val) => render(val),
            }
        } else if is_word(&t[0], &['S', 'E', 'T']) && n == 4 {
            self.set(&t[1], string_of(&t[2]), &t[3], now)
        } else if is_word(&t[0], &['I', 'N', 'C', 'R', 'E', 'M', 'E', 'N', 'T']) && n == 3 {
            self.shift(string_of(&t[1]), &t[2], false, now)
        } else if is_word(&t[0], &['D', 'E', 'C', 'R', 'E', 'M', 'E', 'N', 'T']) && n == 3 {
            self.shift(string_of(&t[1]), &t[2], true, now)
        } else if is_word(&t[0], &['R', 'E', 'N', 'A', 'M', 'E']) && n == 3 {
            let a = string_of(&t[1]);
            self.database.purge(&a, now);
            self.database.rename(&a, &string_of(&t[2]));
            reply_text("OK")
        } else if is_word(&t[0], &['C', 'O', 'P', 'Y']) && n == 3 {
            let a = string_of(&t[1]);
            self.database.purge(&a, now);
            self.database.copy(&a, &string_of(&t[2]));
            reply_text("OK")
        } else if is_word(&t[0], &['D', 'E', 'L']) && n >= 2 {
            self.del(t);
            reply_text("OK")
        } else if is_word(&t[0], &['E', 'X', 'I', 'S', 'T', 'S']) && n >= 2 {
            let c = self.count_live(t, now);
            let mut digits: Vec<char> = Vec::new();
            push_decimal(c as u64, &mut digits);
            assert(digits@ =~= int_text(c as int));
            Outcome::Reply(string_of(&digits))
        } else if (is_word(&t[0], &['T', 'T', 'L']) || is_word(
            &t[0],
            &['E', 'X', 'P', 'I', 'R', 'E', 'T', 'I', 'M', 'E'],
        )) && n == 2 {
            let ttl = self.database.get_ttl(&string_of(&t[1]), now);
            Outcome::Reply(string_of(&int_to_chars(ttl)))
        } else if is_word(&t[0], &['E', 'X', 'P', 'I', 'R', 'E']) && n == 3 {
            self.expire(string_of(&t[1]), &t[2], now)
        } else if is_word(&t[0], &['P', 'E', 'R', 'S', 'I', 'S', 'T']) && n == 2 {
            let k = string_of(&t[1]);
            self.database.purge(&k, now);
            if !self.database.has_key(&k) {
                return reply_text("Key does not exist");
            }
            self.database.set_ttl(&k, Expiry::Never);
            reply_text("OK")
        } else {
            reply_text("Invalid command")
        }
    }

    fn set(&mut self, ty: &Vec<char>, key: String, lit: &Vec<char>, now: i64) -> (r: Outcome)
        requires
            old(self).wf(),
        ensures
            final(self).wf(),
            final(self).password() == old(self).password(),
            (final(self).store(), r@) == set_model(old(self).store(), ty@, key@, lit@, now),
    {
        let value = if is_word(ty, &['I', 'N', 'T']) {
            match parse_i32(lit) {
                Some(i) => Value::Int(i),
                None => return reply_text("Invalid value"),
            }
        } else if is_word(ty, &['F', 'L', 'O', 'A', 'T']) {
            return Outcome::Float(FloatTask::Store { key, literal: string_of(lit) });
        } else if is_word(ty, &['S', 'T', 'R', 'I', 'N', 'G']) {
            Value::Str(string_of(lit))
        } else if is_word(ty, &['B', 'O', 'O', 'L']) {
            match parse_bool(lit) {
                Some(b) => Value::Bool(b),
                None => return reply_text("Invalid value"),
            }
        } else {
            return reply_text("Invalid type");
        };
        self.database.set(key, value, now);
        reply_text("OK")
    }

    fn shift(&mut self, key: String, delta: &Vec<char>, down: bool, now: i64) -> (r: Outcome)
        requires
            old(self).wf(),
        ensures
            final(self).wf(),
            final(self).password() == old(self).password(),
            (final(self).store(), r@) == shift_model(old(self).store(), key@, delta@, down, now),
    {
        self.database.purge(&key, now);
        match self.database.peek(&key) {
            None => reply_text("Key does not exist"),
            Some(current) => match current {
                Value::Int(_) | Value::Float(_) => Outcome::Float(
                    FloatTask::Shift { key, current, delta: string_of(delta), down },
                ),
                _ => reply_text("Invalid type"),
            },
        }
    }

    fn del(&mut self, t: &Vec<Vec<char>>)
        requires
            old(self).wf(),
            t.len() >= 1,
        ensures
            final(self).wf(),
            final(self).password() == old(self).password(),
            final(self).store() == remove_all(old(self).store(), views(t@).subrange(1, t.len() as int)),
    {
        let mut i: usize = 1;
        while i < t.len()
            invariant
                1 <= i <= t.len(),
                self.wf(),
                self.password() == old(self).password(),
                self.store() == remove_all(old(self).store(), views(t@).subrange(1, i as int)),
            decreases t.len() - i,
        {
            assert(views(t@).subrange(1, i + 1).drop_last() =~= views(t@).subrange(1, i as int));
            self.database.remove(&string_of(&t[i]));
            i = i + 1;
        }
    }

    fn count_live(&self, t: &Vec<Vec<char>>, now: i64) -> (r: usize)
        requires
            self.wf(),
            t.len() >= 1,
        ensures
            r == live_count(self.store(), views(t@).subrange(1, t.len() as int), now),
    {
        let mut i: usize = 1;
        let mut c: usize = 0;
        while i < t.len()
            invariant
                1 <= i <= t.len(),
                c < i,
                self.wf(),
                c == live_count(self.store(), views(t@).subrange(1, i as int), now),
            decreases t.len() - i,
        {
            assert(views(t@).subrange(1, i + 1).drop_last() =~= views(t@).subrange(1, i as int));
            if self.database.is_live(&string_of(&t[i]), now) {
                c = c + 1;
            }
            i = i + 1;
        }
        c
    }

    fn expire(&mut self, key: String, secs: &Vec<char>, now: i64) -> (r: Outcome)
        requires
            old(self).wf(),
        ensures
            final(self).wf(),
            final(self).password() == old(self).password(),
            (final(self).store(), r@) == expire_model(old(self).store(), key@, secs@, now),
    {
        let s = match parse_i64(secs) {
            Some(s) => s,
            None => return reply_text("Invalid value"),
        };
        let deadline: i128 = now as i128 + s as i128;
        if deadline > 9223372036854775807i128 || deadline < -9223372036854775808i128 {
            return reply_text("Invalid value");
        }
        self.database.purge(&key, now);
        if !self.database.has_key(&key) {
            return reply_text("Key does not exist");
        }
        self.database.set_ttl(&key, Expiry::At(deadline as i64));
        reply_text("OK")
    }

    /// Finishes `SET FLOAT` or a float `INCREMENT`/`DECREMENT`: stores the float
    /// with these bits under `key`, or answers that the number was malformed.
    pub fn store_float(&mut self, key: String, bits: Option<u32>, now: i64) -> (r: String)
        requires
            old(self).wf(),
        ensures
            final(self).wf(),
            final(self).password() == old(self).password(),
            bits matches Some(b) ==> final(self).store() == old(self).store().insert(
                key@,
                fresh(ValueModel::Float(b), now),
            ) && r@ == "OK"@,
            bits is None ==> final(self).store() == old(self).store() && r@ == "Invalid value"@,
    {
        match bits {
            Some(b) => {
                self.database.set(key, Value::Float(b), now);
                text("OK")
            },
            None => text("Invalid value"),
        }
    }

    /// Finishes an integer `INCREMENT` (`down` false) or `DECREMENT` (`down`
    /// true) of `current` by `delta`, the float delta truncated toward zero;
    /// `None` stands for a malformed delta. A result outside `i32` is refused.
    pub fn apply_int_delta(
        &mut self,
        key: String,
        current: i32,
        delta: Option<i32>,
        down: bool,
        now: i64,
    ) -> (r: String)
        requires
            old(self).wf(),
        ensures
            final(self).wf(),
            final(self).password() == old(self).password(),
            ({
                let v: int = match delta {
                    Some(d) => if down { current - d } else { current + d },
                    None => 0,
                };
                if delta is Some && i32::MIN <= v <= i32::MAX {
                    final(self).store() == old(self).store().insert(
                        key@,
                        fresh(ValueModel::Int(v as i32), now),
                    ) && r@ == "OK"@
                } else {
                    final(self).store() == old(self).store() && r@ == "Invalid value"@
                }
            }),
    {
        let d = match delta {
            Some(d) => d,
            None => return text("Invalid value"),
        };
        let v: i64 = if down { current as i64 - d as i64 } else { current as i64 + d as i64 };
        if v < -2147483648 || v > 2147483647 {
            return text("Invalid value");
        }
        self.database.set(key, Value::Int(v as i32), now);
        text("OK")
    }
}

} // verus!
