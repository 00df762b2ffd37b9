//! Properties of the command table, stated over its model and proved.

use vstd::prelude::*;

use crate::commands::{
    command_model, live_count, reply, remove_all, Db, OutcomeModel,
};
use crate::memory::{is_expired, ttl_of, EntryModel, Expiry};
use crate::value::{bool_literal, i32_literal, i64_literal, int_text, ValueModel};

verus! {

pub open spec fn w_get() -> Seq<char> {
    seq!['G', 'E', 'T']
}

pub open spec fn w_set() -> Seq<char> {
    seq!['S', 'E', 'T']
}

pub open spec fn w_ttl() -> Seq<char> {
    seq!['T', 'T', 'L']
}

pub open spec fn w_expire() -> Seq<char> {
    seq!['E', 'X', 'P', 'I', 'R', 'E']
}

pub open spec fn w_persist() -> Seq<char> {
    seq!['P', 'E', 'R', 'S', 'I', 'S', 'T']
}

pub open spec fn w_rename() -> Seq<char> {
    seq!['R', 'E', 'N', 'A', 'M', 'E']
}

pub open spec fn w_copy() -> Seq<char> {
    seq!['C', 'O', 'P', 'Y']
}

pub open spec fn w_exists() -> Seq<char> {
    seq!['E', 'X', 'I', 'S', 'T', 'S']
}

pub open spec fn w_del() -> Seq<char> {
    seq!['D', 'E', 'L']
}

/// The outcome of `GET k` on store `m` at `now`.
pub open spec fn get_out(m: Db, k: Seq<char>, now: i64) -> OutcomeModel {
    command_model(m, seq![w_get(), k], now).1
}

/// A key that is held and not expired at `now`.
pub open spec fn live(m: Db, k: Seq<char>, now: i64) -> bool {
    m.contains_key(k) && !is_expired(m[k], now)
}

/// `SET STRING k v` then `GET k` answers `v`; `SET INT k v` then `GET k`
/// answers the decimal text of the number `v` denotes; `SET BOOL k v` then
/// `GET k` answers `v`.
pub proof fn law_set_then_get(m: Db, k: Seq<char>, v: Seq<char>, now: i64)
    ensures
        get_out(
            command_model(m, seq![w_set(), seq!['S', 'T', 'R', 'I', 'N', 'G'], k, v], now).0,
            k,
            now,
        ) == OutcomeModel::Reply(v),
        i32_literal(v) matches Some(i) ==> get_out(
            command_model(m, seq![w_set(), seq!['I', 'N', 'T'], k, v], now).0,
            k,
            now,
        ) == OutcomeModel::Reply(int_text(i as int)),
        bool_literal(v) is Some ==> get_out(
            command_model(m, seq![w_set(), seq!['B', 'O', 'O', 'L'], k, v], now).0,
            k,
            now,
        ) == OutcomeModel::Reply(v),
{
    reveal_strlit("true");
    reveal_strlit("false");
    assert("true"@ =~= seq!['t', 'r', 'u', 'e']);
    assert("false"@ =~= seq!['f', 'a', 'l', 's', 'e']);
}

/// Once a float is stored under `k` (the end of `SET FLOAT`), `GET k` hands
/// back exactly its bits to be rendered.
pub proof fn law_float_then_get(m: Db, k: Seq<char>, bits: u32, now: i64)
    ensures
        get_out(
            m.insert(
                k,
                EntryModel {
                    expiry: Expiry::Never,
                    last_modified: now,
                    last_accessed: now,
                    value: ValueModel::Float(bits),
                },
            ),
            k,
            now,
        ) == OutcomeModel::Render(bits),
{
}

/// `GET` on a key that is not held answers "Key does not exist", and so it
/// does after `DEL` lists the key.
pub proof fn law_get_absent(m: Db, k: Seq<char>, keys: Seq<Seq<char>>, now: i64)
    requires
        keys.contains(k),
    ensures
        !m.contains_key(k) ==> get_out(m, k, now) == reply("Key does not exist"),
        get_out(command_model(m, seq![w_del()] + keys, now).0, k, now) == reply(
            "Key does not exist",
        ),
{
    lemma_remove_all(m, keys);
    assert((seq![w_del()] + keys).subrange(1, keys.len() as int + 1) =~= keys);
}

/// `DEL` answers "OK", removes every listed key and keeps every other entry.
pub proof fn law_del(m: Db, keys: Seq<Seq<char>>, now: i64)
    requires
        keys.len() >= 1,
    ensures
        command_model(m, seq![w_del()] + keys, now).1 == reply("OK"),
        forall|k: Seq<char>|
            keys.contains(k) ==> !(#[trigger] command_model(m, seq![w_del()] + keys, now).0.contains_key(k)),
        forall|k: Seq<char>|
            !keys.contains(k) && m.contains_key(k) ==> command_model(m, seq![w_del()] + keys, now).0.contains_key(k)
                && #[trigger] command_model(m, seq![w_del()] + keys, now).0[k] == m[k],
{
    assert((seq![w_del()] + keys).subrange(1, keys.len() as int + 1) =~= keys);
    assert((seq![w_del()] + keys)[0] == w_del());
    lemma_remove_all(m, keys);
    let d = command_model(m, seq![w_del()] + keys, now).0;
    assert(d == remove_all(m, keys));
    assert forall|k: Seq<char>| !keys.contains(k) && m.contains_key(k) implies d.contains_key(k)
        && d[k] == m[k] by {
        assert(remove_all(m, keys)[k] == m[k]);
    }
}

proof fn lemma_remove_all(m: Db, keys: Seq<Seq<char>>)
    ensures
        forall|k: Seq<char>| keys.contains(k) ==> !(#[trigger] remove_all(m, keys).contains_key(k)),
        forall|k: Seq<char>|
            !keys.contains(k) && m.contains_key(k) ==> remove_all(m, keys).contains_key(k)
                && #[trigger] remove_all(m, keys)[k] == m[k],
        forall|k: Seq<char>| #[trigger] remove_all(m, keys).contains_key(k) ==> m.contains_key(k),
    decreases keys.len(),
{
    if keys.len() > 0 {
        lemma_remove_all(m, keys.drop_last());
        assert(remove_all(m, keys) == remove_all(m, keys.drop_last()).remove(keys.last()));
        assert forall|k: Seq<char>| keys.contains(k) implies !remove_all(m, keys).contains_key(k) by {
            if k != keys.last() {
                let i = choose|i: int| 0 <= i < keys.len() && keys[i] == k;
                assert(keys.drop_last()[i] == k);
            }
        }
        assert forall|k: Seq<char>| !keys.contains(k) && m.contains_key(k) implies remove_all(m, keys).contains_key(k)
            && remove_all(m, keys)[k] == m[k] by {
            assert(!keys.drop_last().contains(k)) by {
                if keys.drop_last().contains(k) {
                    let i = choose|i: int| 0 <= i < keys.drop_last().len() && keys.drop_last()[i] == k;
                    assert(keys[i] == k);
                }
            }
            assert(keys[keys.len() - 1] != k);
            assert(remove_all(m, keys.drop_last())[k] == m[k]);
            assert(remove_all(m, keys.drop_last()).contains_key(k));
        }
    }
}

proof fn lemma_replies_differ()
    ensures
        reply("OK") != reply("Invalid value"),
        reply("OK") != reply("Key does not exist"),
{
    reveal_strlit("OK");
    reveal_strlit("Invalid value");
    reveal_strlit("Key does not exist");
    assert("OK"@.len() != "Invalid value"@.len());
    assert("OK"@.len() != "Key does not exist"@.len());
}

/// `EXPIRE k n` then `TTL k` one second later at most answers a number
/// between `n - 1` and `n`. Left out: `n` below -1, and `n` of 0 with a second
/// gone by, where the key has expired and `TTL` answers -2.
pub proof fn law_expire_then_ttl(m: Db, k: Seq<char>, secs: Seq<char>, n: i64, now: i64, later: i64)
    requires
        i64_literal(secs) == Some(n),
        command_model(m, seq![w_expire(), k, secs], now).1 == reply("OK"),
        now <= later <= now + 1,
        n >= -1,
        !(n == 0 && later == now + 1),
    ensures
        ({
            let m1 = command_model(m, seq![w_expire(), k, secs], now).0;
            let out = command_model(m1, seq![w_ttl(), k], later).1;
            exists|r: int| n - 2 < r <= n && out == OutcomeModel::Reply(int_text(r))
        }),
{
    lemma_replies_differ();
    let t = seq![w_expire(), k, secs];
    assert(t[0] == w_expire() && t[1] == k && t[2] == secs && t.len() == 3);
    assert(command_model(m, t, now) == crate::commands::expire_model(m, k, secs, now));
    let m1 = command_model(m, t, now).0;
    assert(m1.contains_key(k));
    assert(m1[k].expiry == Expiry::At((now + n) as i64));
    let r = ttl_of(m1, k, later);
    assert(n - 2 < r <= n);
}

/// `PERSIST k` right after `EXPIRE k n` makes `TTL k` answer -1. Left out: a
/// negative `n`, which expires the key at once.
pub proof fn law_persist_after_expire(m: Db, k: Seq<char>, secs: Seq<char>, n: i64, now: i64, later: i64)
    requires
        i64_literal(secs) == Some(n),
        n >= 0,
        command_model(m, seq![w_expire(), k, secs], now).1 == reply("OK"),
    ensures
        ({
            let m1 = command_model(m, seq![w_expire(), k, secs], now).0;
            let m2 = command_model(m1, seq![w_persist(), k], now).0;
            command_model(m2, seq![w_ttl(), k], later).1 == OutcomeModel::Reply(int_text(-1))
        }),
{
    lemma_replies_differ();
    let m1 = command_model(m, seq![w_expire(), k, secs], now).0;
    assert(m1.contains_key(k));
    assert(!is_expired(m1[k], now));
}

/// `TTL` on a key whose deadline has passed answers -2, and a `GET` after it
/// answers "Key does not exist".
pub proof fn law_ttl_expired(m: Db, k: Seq<char>, now: i64)
    requires
        m.contains_key(k),
        is_expired(m[k], now),
    ensures
        command_model(m, seq![w_ttl(), k], now).1 == OutcomeModel::Reply(int_text(-2)),
        get_out(command_model(m, seq![w_ttl(), k], now).0, k, now) == reply("Key does not exist"),
{
}

/// `RENAME a b` moves a live value: `GET a` then finds nothing and `GET b`
/// answers what `GET a` answered before. On a source that is not held it
/// answers "OK" and changes nothing.
pub proof fn law_rename(m: Db, a: Seq<char>, b: Seq<char>, now: i64)
    ensures
        command_model(m, seq![w_rename(), a, b], now).1 == reply("OK"),
        !m.contains_key(a) ==> command_model(m, seq![w_rename(), a, b], now).0 == m,
        live(m, a, now) && a != b ==> get_out(command_model(m, seq![w_rename(), a, b], now).0, a, now)
            == reply("Key does not exist"),
        live(m, a, now) ==> get_out(command_model(m, seq![w_rename(), a, b], now).0, b, now)
            == get_out(m, a, now),
{
}

/// `COPY a b` of a live value leaves `GET a` as it was and makes `GET b`
/// answer the same.
pub proof fn law_copy(m: Db, a: Seq<char>, b: Seq<char>, now: i64)
    requires
        live(m, a, now),
    ensures
        get_out(command_model(m, seq![w_copy(), a, b], now).0, a, now) == get_out(m, a, now),
        get_out(command_model(m, seq![w_copy(), a, b], now).0, b, now) == get_out(m, a, now),
{
}

/// `EXISTS` answers how many listed keys `TTL` would not report as -2, and
/// changes nothing.
pub proof fn law_exists(m: Db, keys: Seq<Seq<char>>, now: i64)
    requires
        keys.len() >= 1,
    ensures
        command_model(m, seq![w_exists()] + keys, now) == (
            m,
            OutcomeModel::Reply(int_text(live_count(m, keys, now) as int)),
        ),
        live_count(m, keys, now) == keys.filter(|k: Seq<char>| ttl_of(m, k, now) != -2).len(),
{
    assert((seq![w_exists()] + keys).subrange(1, keys.len() as int + 1) =~= keys);
    assert((seq![w_exists()] + keys)[0] == w_exists());
    lemma_live_count(m, keys, now);
}

proof fn lemma_live_count(m: Db, keys: Seq<Seq<char>>, now: i64)
    ensures
        live_count(m, keys, now) == keys.filter(|k: Seq<char>| ttl_of(m, k, now) != -2).len(),
    decreases keys.len(),
{
    reveal(Seq::filter);
    if keys.len() > 0 {
        lemma_live_count(m, keys.drop_last(), now);
    }
}

/// A `SET` of one key leaves what `GET` answers for every other key.
pub proof fn law_set_keeps_others(m: Db, ty: Seq<char>, k: Seq<char>, v: Seq<char>, other: Seq<char>, now: i64)
    requires
        other != k,
    ensures
        get_out(command_model(m, seq![w_set(), ty, k, v], now).0, other, now) == get_out(m, other, now),
{
}

} // verus!
