//! Rewrites of the stored document at the JSON level, before it is read as
//! typed data: telling a v1 document, a document that still holds run-time
//! state, and the sticky-note clean-up.
use vstd::prelude::*;
use vstd::string::*;
use crate::text::{owned, same_text};
use crate::json::{field_of, Json};

verus! {

broadcast use vstd::string::group_string_axioms;

// ---------------------------------------------------------------- telling documents apart

/// A v1 document: no `settings` object, and a `theme` string or a `tasks`
/// or `reminders` field.
pub open spec fn looks_like_v1_spec(raw: Json) -> bool {
    if raw.get_spec("settings"@) matches Some(Json::Object(_)) {
        false
    } else if raw.get_spec("theme"@) matches Some(Json::Str(_)) {
        true
    } else {
        raw.has("tasks"@) || raw.has("reminders"@)
    }
}

/// Whether a stored document is a v1 one.
pub fn looks_like_v1(raw: &Json) -> (r: bool)
    ensures
        r == looks_like_v1_spec(*raw),
{
    if let Some(value) = raw.get("settings") {
        if value.is_object() {
            return false;
        }
    }
    if let Some(Json::Str(_)) = raw.get("theme") {
        return true;
    }
    raw.get("tasks").is_some() || raw.get("reminders").is_some()
}

/// A document that still holds run-time state: fired keys, a migration
/// report, or a capture position in its settings.
pub open spec fn legacy_schema_spec(raw: Json) -> bool {
    raw.has("fired"@) || raw.has("migration"@) || match raw.get_spec("settings"@) {
        Some(s) => s.has("capturePos"@),
        None => false,
    }
}

/// Whether the document still holds run-time state that belongs elsewhere.
pub fn is_legacy_schema(raw: &Json) -> (r: bool)
    ensures
        r == legacy_schema_spec(*raw),
{
    if raw.get("fired").is_some() || raw.get("migration").is_some() {
        return true;
    }
    match raw.get("settings") {
        Some(settings) => settings.get("capturePos").is_some(),
        None => false,
    }
}

// ---------------------------------------------------------------- fields

proof fn lemma_field_of_push(fields: Seq<(String, Json)>, x: (String, Json), key: Seq<char>)
    ensures
        field_of(fields.push(x), key) == (match field_of(fields, key) {
            Some(v) => Some(v),
            None => if x.0@ == key { Some(x.1) } else { None },
        }),
    decreases fields.len(),
{
    reveal_with_fuel(field_of, 2);
    if fields.len() > 0 {
        assert(fields.push(x).drop_first() =~= fields.drop_first().push(x));
        assert(fields.push(x)[0] == fields[0]);
        lemma_field_of_push(fields.drop_first(), x, key);
    } else {
        assert(fields.push(x).drop_first() =~= Seq::<(String, Json)>::empty());
        assert(fields.push(x)[0] == x);
    }
}

/// The first position of `key`.
pub open spec fn first_key_at(fields: Seq<(String, Json)>, key: Seq<char>, p: int) -> bool {
    &&& 0 <= p < fields.len()
    &&& fields[p].0@ == key
    &&& forall|j: int| 0 <= j < p ==> (#[trigger] fields[j]).0@ != key
}

proof fn lemma_field_of_first(fields: Seq<(String, Json)>, key: Seq<char>, p: int)
    requires
        first_key_at(fields, key, p),
    ensures
        field_of(fields, key) == Some(fields[p].1),
    decreases fields.len(),
{
    if p > 0 {
        assert(fields[0].0@ != key);
        let t = fields.drop_first();
        assert forall|j: int| 0 <= j < p - 1 implies (#[trigger] t[j]).0@ != key by {
            assert(t[j] == fields[j + 1]);
        }
        lemma_field_of_first(t, key, p - 1);
    }
}

proof fn lemma_field_of_none(fields: Seq<(String, Json)>, key: Seq<char>)
    requires
        forall|j: int| 0 <= j < fields.len() ==> (#[trigger] fields[j]).0@ != key,
    ensures
        field_of(fields, key) is None,
    decreases fields.len(),
{
    if fields.len() > 0 {
        let t = fields.drop_first();
        assert forall|j: int| 0 <= j < t.len() implies (#[trigger] t[j]).0@ != key by {
            assert(t[j] == fields[j + 1]);
        }
        lemma_field_of_none(t, key);
    }
}

/// Replacing the value at the first position of a key changes that key alone.
proof fn lemma_field_of_update(fields: Seq<(String, Json)>, key: Seq<char>, p: int, v: Json, other: Seq<char>)
    requires
        first_key_at(fields, key, p),
    ensures
        field_of(fields.update(p, (fields[p].0, v)), other) == (if other == key {
            Some(v)
        } else {
            field_of(fields, other)
        }),
    decreases fields.len(),
{
    let u = fields.update(p, (fields[p].0, v));
    if p == 0 {
        assert(u.drop_first() =~= fields.drop_first());
    } else {
        let t = fields.drop_first();
        assert forall|j: int| 0 <= j < p - 1 implies (#[trigger] t[j]).0@ != key by {
            assert(t[j] == fields[j + 1]);
        }
        lemma_field_of_update(t, key, p - 1, v, other);
        assert(u.drop_first() =~= t.update(p - 1, (t[p - 1].0, v)));
        assert(u[0] == fields[0]);
    }
}

/// The first position of `key`, if any.
fn find_key(fields: &Vec<(String, Json)>, key: &str) -> (r: Option<usize>)
    ensures
        match r {
            Some(p) => first_key_at(fields@, key@, p as int),
            None => forall|j: int| 0 <= j < fields@.len() ==> (#[trigger] fields@[j]).0@ != key@,
        },
{
    let mut i: usize = 0;
    while i < fields.len()
        invariant
            i <= fields@.len(),
            forall|j: int| 0 <= j < i ==> (#[trigger] fields@[j]).0@ != key@,
        decreases fields@.len() - i,
    {
        if same_text(fields[i].0.as_str(), key) {
            return Some(i);
        }
        i = i + 1;
    }
    None
}


// ---------------------------------------------------------------- sticky notes

/// A to-do mirror note of the old sticky model (`kind` is `todo`).
pub open spec fn is_todo_entry(e: Json) -> bool {
    match e.get_spec("kind"@) {
        Some(Json::Str(k)) => k@ == "todo"@,
        _ => false,
    }
}

/// A note the old model had folded away (`hidden` is `true`).
pub open spec fn hidden_true(e: Json) -> bool {
    e.get_spec("hidden"@) == Some(Json::Bool(true))
}

/// Fields the free sticky note no longer has.
pub open spec fn retired(k: Seq<char>) -> bool {
    k == "kind"@ || k == "pinned"@ || k == "hidden"@
}

/// What a field of a note becomes: retired fields go; a folded note is
/// shown small (`mini` is `true`); everything else stays.
pub open spec fn normalized_field(old: Json, k: Seq<char>) -> Option<Json> {
    if retired(k) {
        None
    } else if k == "mini"@ && hidden_true(old) {
        Some(Json::Bool(true))
    } else {
        old.get_spec(k)
    }
}

/// `new` is the note `old` in the free sticky model (entries that are not
/// objects stay as they are).
pub open spec fn entry_normalized(old: Json, new: Json) -> bool {
    if old is Object {
        new is Object && forall|k: Seq<char>| #[trigger] new.get_spec(k) == normalized_field(old, k)
    } else {
        new == old
    }
}

/// A note that the clean-up changes: an object with a retired field.
pub open spec fn entry_changes(e: Json) -> bool {
    e is Object && (e.has("kind"@) || e.has("pinned"@) || e.has("hidden"@))
}

/// The `stickies` list of a document, when there is one.
pub open spec fn stickies_of(d: Json) -> Option<Seq<Json>> {
    match d.get_spec("stickies"@) {
        Some(Json::Array(v)) => Some(v@),
        _ => None,
    }
}

/// `b` has the same fields as `a` (or is `a`, when `a` is not an object).
pub open spec fn same_fields(a: Json, b: Json) -> bool {
    if a is Object {
        b is Object && forall|k: Seq<char>| #[trigger] b.get_spec(k) == a.get_spec(k)
    } else {
        b == a
    }
}

/// The value of a field the prefix `pre` of a note has produced so far.
pub open spec fn normalized_prefix(pre: Seq<(String, Json)>, ht: bool, k: Seq<char>) -> Option<Json> {
    if retired(k) {
        None
    } else if k == "mini"@ && ht {
        if field_of(pre, k) is Some { Some(Json::Bool(true)) } else { None }
    } else {
        field_of(pre, k)
    }
}

proof fn lemma_mini_not_retired()
    ensures
        !retired("mini"@),
{
    reveal_strlit("mini");
    reveal_strlit("kind");
    reveal_strlit("pinned");
    reveal_strlit("hidden");
    assert("mini"@[0] != "kind"@[0]);
    assert("mini"@.len() != "pinned"@.len());
    assert("mini"@.len() != "hidden"@.len());
}

fn is_todo(e: &Json) -> (r: bool)
    ensures
        r == is_todo_entry(*e),
{
    match e.get("kind") {
        Some(Json::Str(k)) => same_text(k.as_str(), "todo"),
        _ => false,
    }
}

fn normalize_entry(e: Json) -> (r: (Json, bool))
    ensures
        entry_normalized(e, r.0),
        r.1 == entry_changes(e),
{
    let ht = match e.get("hidden") {
        Some(v) => match v.as_bool() {
            Some(b) => b,
            None => false,
        },
        None => false,
    };
    assert(ht == hidden_true(e));
    let changed = e.get("kind").is_some() || e.get("pinned").is_some() || e.get("hidden").is_some();
    let ghost old_e = e;
    match e {
        Json::Object(mut fields) => {
            let ghost orig = fields@;
            assert(forall|key: Seq<char>| #[trigger] old_e.get_spec(key) == field_of(orig, key));
            proof {
                reveal_strlit("mini");
                reveal_strlit("kind");
                reveal_strlit("pinned");
                reveal_strlit("hidden");
            }
            let mut out: Vec<(String, Json)> = Vec::new();
            let ghost mut k: int = 0;
            assert(orig.take(0) =~= Seq::<(String, Json)>::empty());
            while fields.len() > 0
                invariant
                    0 <= k <= orig.len(),
                    fields@ == orig.skip(k),
                    ht == hidden_true(old_e),
                    forall|key: Seq<char>| #[trigger] old_e.get_spec(key) == field_of(orig, key),
                    forall|key: Seq<char>| #[trigger] field_of(out@, key) == normalized_prefix(orig.take(k), ht, key),
                decreases fields@.len(),
            {
                let x = fields.remove(0);
                proof {
                    assert(x == orig[k]);
                    assert(orig.take(k + 1) =~= orig.take(k).push(x));
                    assert(fields@ =~= orig.skip(k + 1));
                }
                let ghost pre = orig.take(k);
                let ghost out0 = out@;
                let retired_key = same_text(x.0.as_str(), "kind") || same_text(x.0.as_str(), "pinned") || same_text(
                    x.0.as_str(),
                    "hidden",
                );
                if retired_key {
                    proof {
                        assert forall|key: Seq<char>| #[trigger] field_of(out@, key) == normalized_prefix(orig.take(k + 1), ht, key) by {
                            lemma_field_of_push(pre, x, key);
                        }
                    }
                } else if ht && same_text(x.0.as_str(), "mini") {
                    let (name, _) = x;
                    out.push((name, Json::Bool(true)));
                    proof {
                        assert forall|key: Seq<char>| #[trigger] field_of(out@, key) == normalized_prefix(orig.take(k + 1), ht, key) by {
                            lemma_field_of_push(pre, x, key);
                            lemma_field_of_push(out0, out@.last(), key);
                            assert(out@ == out0.push(out@.last()));
                        }
                    }
                } else {
                    out.push(x);
                    proof {
                        assert forall|key: Seq<char>| #[trigger] field_of(out@, key) == normalized_prefix(orig.take(k + 1), ht, key) by {
                            lemma_field_of_push(pre, x, key);
                            lemma_field_of_push(out0, x, key);
                            assert(out@ == out0.push(x));
                        }
                    }
                }
                proof {
                    k = k + 1;
                }
            }
            proof {
                assert(orig.take(k) =~= orig);
            }
            let mini_seen = {
                let mut found = false;
                let mut i: usize = 0;
                while i < out.len()
                    invariant
                        i <= out@.len(),
                        found == exists|j: int| 0 <= j < i && (#[trigger] out@[j]).0@ == "mini"@,
                    decreases out@.len() - i,
                {
                    if same_text(out[i].0.as_str(), "mini") {
                        found = true;
                    }
                    i = i + 1;
                }
                found
            };
            if ht && !mini_seen {
                let ghost out0 = out@;
                proof {
                    lemma_field_of_none(out0, "mini"@);
                }
                out.push((owned("mini"), Json::Bool(true)));
                proof {
                    reveal_strlit("mini");
                    reveal_strlit("kind");
                    reveal_strlit("pinned");
                    reveal_strlit("hidden");
                    assert forall|key: Seq<char>| #[trigger] field_of(out@, key) == normalized_field(old_e, key) by {
                        lemma_field_of_push(out0, out@.last(), key);
                        assert(out@ == out0.push(out@.last()));
                        assert(field_of(out0, key) == normalized_prefix(orig, ht, key));
                        if key == "mini"@ {
                            assert(field_of(out0, key) is None);
                            assert(out@.last().0@ == "mini"@);
                            assert(hidden_true(old_e));
                            lemma_mini_not_retired();
                            assert(out@.last().1 == Json::Bool(true));
                        } else {
                            assert(out@.last().0@ != key);
                            assert(field_of(out@, key) == field_of(out0, key));
                        }
                    }
                }
            }
            proof {
                if !(ht && !mini_seen) {
                    if ht {
                        let j = choose|j: int| 0 <= j < out@.len() && (#[trigger] out@[j]).0@ == "mini"@;
                        lemma_field_of_absent(out@, "mini"@, j);
                    }
                    assert forall|key: Seq<char>| #[trigger] field_of(out@, key) == normalized_field(old_e, key) by {
                        assert(field_of(out@, key) == normalized_prefix(orig, ht, key));
                    }
                }
            }
            let r = Json::Object(out);
            proof {
                assert forall|key: Seq<char>| #[trigger] r.get_spec(key) == normalized_field(old_e, key) by {
                    assert(r.get_spec(key) == field_of(out@, key));
                    assert(field_of(out@, key) == normalized_field(old_e, key));
                }
            }
            (r, changed)
        },
        other => (other, changed),
    }
}

proof fn lemma_field_of_absent(fields: Seq<(String, Json)>, key: Seq<char>, j: int)
    requires
        0 <= j < fields.len(),
        fields[j].0@ == key,
    ensures
        field_of(fields, key) is Some,
    decreases fields.len(),
{
    if j > 0 && fields[0].0@ != key {
        let t = fields.drop_first();
        assert(t[j - 1] == fields[j]);
        lemma_field_of_absent(t, key, j - 1);
    }
}


/// What the clean-up does to a `stickies` list: to-do mirrors are dropped,
/// the rest normalised; whether anything changed.
pub open spec fn list_normalized(old: Seq<Json>, new: Seq<Json>, changed: bool) -> bool {
    let kept = old.filter(|e: Json| !is_todo_entry(e));
    &&& new.len() == kept.len()
    &&& forall|i: int| 0 <= i < kept.len() ==> entry_normalized(kept[i], #[trigger] new[i])
    &&& changed == (kept.len() < old.len() || exists|i: int| 0 <= i < kept.len() && entry_changes(#[trigger] kept[i]))
}

fn normalize_list(list: Vec<Json>) -> (r: (Vec<Json>, bool))
    ensures
        list_normalized(list@, r.0@, r.1),
{
    let ghost orig = list@;
    let ghost pred = |e: Json| !is_todo_entry(e);
    let mut list = list;
    let mut out: Vec<Json> = Vec::new();
    let mut dropped = false;
    let mut touched = false;
    let ghost mut k: int = 0;
    while list.len() > 0
        invariant
            0 <= k <= orig.len(),
            list@ == orig.skip(k),
            pred == (|e: Json| !is_todo_entry(e)),
            out@.len() == orig.take(k).filter(pred).len(),
            forall|i: int| 0 <= i < out@.len() ==> entry_normalized(orig.take(k).filter(pred)[i], #[trigger] out@[i]),
            dropped == (orig.take(k).filter(pred).len() < k),
            orig.take(k).filter(pred).len() <= k,
            touched == exists|i: int| 0 <= i < orig.take(k).filter(pred).len() && entry_changes(#[trigger] orig.take(k).filter(pred)[i]),
        decreases list@.len(),
    {
        let e = list.remove(0);
        let ghost prev = orig.take(k).filter(pred);
        proof {
            assert(e == orig[k]);
            assert(orig.take(k + 1) =~= orig.take(k).push(e));
            assert(list@ =~= orig.skip(k + 1));
            crate::store::lemma_filter_push(orig.take(k), pred, e);
        }
        if is_todo(&e) {
            dropped = true;
        } else {
            let (n, c) = normalize_entry(e);
            out.push(n);
            if c {
                touched = true;
            }
            proof {
                let now = orig.take(k + 1).filter(pred);
                assert(now == prev.push(e));
                assert forall|i: int| 0 <= i < out@.len() implies entry_normalized(now[i], #[trigger] out@[i]) by {
                    if i < prev.len() {
                        assert(now[i] == prev[i]);
                    }
                }
                if touched {
                    if c {
                        assert(entry_changes(now[prev.len() as int]));
                    } else {
                        let i = choose|i: int| 0 <= i < prev.len() && entry_changes(#[trigger] prev[i]);
                        assert(now[i] == prev[i]);
                    }
                } else {
                    assert forall|i: int| 0 <= i < now.len() implies !entry_changes(#[trigger] now[i]) by {
                        if i < prev.len() {
                            assert(now[i] == prev[i]);
                        }
                    }
                }
            }
        }
        proof {
            k = k + 1;
        }
    }
    proof {
        assert(orig.take(k) =~= orig);
    }
    (out, dropped || touched)
}

/// Bring the stickies of a stored document to the free sticky model: to-do
/// mirror notes are dropped (their content lives in the tasks), a folded
/// note is shown small, and the retired fields go. Says whether anything
/// changed; a second run changes nothing.
pub fn normalize_stickies_v3(data: &mut Json) -> (changed: bool)
    ensures
        stickies_cleaned(*old(data), *final(data), changed),
{
    let mut taken = Json::Null;
    std::mem::swap(&mut taken, data);
    let ghost before = taken;
    match taken {
        Json::Object(mut fields) => {
            let ghost orig = fields@;
            assert(forall|key: Seq<char>| #[trigger] before.get_spec(key) == field_of(orig, key));
            match find_key(&fields, "stickies") {
                None => {
                    proof {
                        lemma_field_of_none(orig, "stickies"@);
                    }
                    *data = Json::Object(fields);
                    false
                },
                Some(p) => {
                    proof {
                        lemma_field_of_first(orig, "stickies"@, p as int);
                    }
                    let (name, value) = fields.remove(p);
                    match value {
                        Json::Array(list) => {
                            let (nl, changed) = normalize_list(list);
                            let ghost nv = Json::Array(nl);
                            fields.insert(p, (name, Json::Array(nl)));
                            proof {
                                assert(fields@ =~= orig.update(p as int, (orig[p as int].0, fields@[p as int].1)));
                                assert forall|k: Seq<char>| #[trigger] field_of(fields@, k) == (if k == "stickies"@ {
                                    Some(fields@[p as int].1)
                                } else {
                                    field_of(orig, k)
                                }) by {
                                    lemma_field_of_update(orig, "stickies"@, p as int, fields@[p as int].1, k);
                                }
                            }
                            *data = Json::Object(fields);
                            changed
                        },
                        other => {
                            fields.insert(p, (name, other));
                            proof {
                                assert(fields@ =~= orig);
                            }
                            *data = Json::Object(fields);
                            false
                        },
                    }
                },
            }
        },
        other => {
            *data = other;
            false
        },
    }
}


// ---------------------------------------------------------------- moving run-time state out

/// Object fields without `key`; the value of its first occurrence.
fn take_field(fields: &mut Vec<(String, Json)>, key: &str) -> (r: Option<Json>)
    ensures
        r == field_of(old(fields)@, key@),
        forall|k: Seq<char>| #[trigger] field_of(final(fields)@, k) == (if k == key@ {
            None
        } else {
            field_of(old(fields)@, k)
        }),
{
    let ghost orig = fields@;
    let mut out: Vec<(String, Json)> = Vec::new();
    let mut found: Option<Json> = None;
    let ghost mut i: int = 0;
    assert(orig.take(0) =~= Seq::<(String, Json)>::empty());
    while fields.len() > 0
        invariant
            0 <= i <= orig.len(),
            fields@ == orig.skip(i),
            found == field_of(orig.take(i), key@),
            forall|k: Seq<char>| #[trigger] field_of(out@, k) == (if k == key@ {
                None
            } else {
                field_of(orig.take(i), k)
            }),
        decreases fields@.len(),
    {
        let x = fields.remove(0);
        let ghost out0 = out@;
        proof {
            assert(x == orig[i]);
            assert(orig.take(i + 1) =~= orig.take(i).push(x));
            assert(fields@ =~= orig.skip(i + 1));
            lemma_field_of_push(orig.take(i), x, key@);
        }
        if same_text(x.0.as_str(), key) {
            if found.is_none() {
                found = Some(x.1);
            }
            proof {
                assert forall|k: Seq<char>| #[trigger] field_of(out@, k) == (if k == key@ {
                    None
                } else {
                    field_of(orig.take(i + 1), k)
                }) by {
                    lemma_field_of_push(orig.take(i), x, k);
                }
            }
        } else {
            out.push(x);
            proof {
                assert forall|k: Seq<char>| #[trigger] field_of(out@, k) == (if k == key@ {
                    None
                } else {
                    field_of(orig.take(i + 1), k)
                }) by {
                    lemma_field_of_push(orig.take(i), x, k);
                    lemma_field_of_push(out0, x, k);
                    assert(out@ == out0.push(x));
                }
            }
        }
        proof {
            i = i + 1;
        }
    }
    proof {
        assert(orig.take(i) =~= orig);
    }
    *fields = out;
    found
}

/// Object fields with `key` set to `v`.
fn set_field(fields: &mut Vec<(String, Json)>, key: &str, v: Json)
    ensures
        forall|k: Seq<char>| #[trigger] field_of(final(fields)@, k) == (if k == key@ {
            Some(v)
        } else {
            field_of(old(fields)@, k)
        }),
{
    let _ = take_field(fields, key);
    let ghost mid = fields@;
    fields.push((owned(key), v));
    proof {
        assert forall|k: Seq<char>| #[trigger] field_of(fields@, k) == (if k == key@ {
            Some(v)
        } else {
            field_of(old(fields)@, k)
        }) by {
            lemma_field_of_push(mid, (fields@.last().0, v), k);
            assert(fields@ == mid.push(fields@.last()));
        }
    }
}

/// The texts of the strings in a list, in order.
pub open spec fn strings_in(v: Seq<Json>) -> Seq<Seq<char>>
    decreases v.len(),
{
    if v.len() == 0 {
        Seq::empty()
    } else {
        strings_in(v.drop_last()) + match v.last() {
            Json::Str(s) => seq![s@],
            _ => Seq::empty(),
        }
    }
}

/// `acc` with each of `add` that it does not hold yet, in order.
pub open spec fn union_into(acc: Seq<Seq<char>>, add: Seq<Seq<char>>) -> Seq<Seq<char>>
    decreases add.len(),
{
    if add.len() == 0 {
        acc
    } else {
        let a = union_into(acc, add.drop_last());
        if a.contains(add.last()) { a } else { a.push(add.last()) }
    }
}

/// A string with the text `t`.
pub open spec fn str_is(j: Json, t: Seq<char>) -> bool {
    match j {
        Json::Str(s) => s@ == t,
        _ => false,
    }
}

pub open spec fn items_of(o: Option<Json>) -> Seq<Json> {
    match o {
        Some(Json::Array(v)) => v@,
        _ => Seq::empty(),
    }
}

/// A field of the existing run-time document (none when it is not an object).
pub open spec fn base_get(existing: Option<Json>, k: Seq<char>) -> Option<Json> {
    match existing {
        Some(j) => if j is Object { j.get_spec(k) } else { None },
        None => None,
    }
}

/// The capture position a document's settings hold.
pub open spec fn settings_capture(raw: Json) -> Option<Json> {
    match raw.get_spec("settings"@) {
        Some(s) => s.get_spec("capturePos"@),
        None => None,
    }
}

/// The fired keys after the split: the run-time ones, then each string of
/// the document's own that is not there yet.
pub open spec fn merged_fired(raw: Json, existing: Option<Json>) -> Seq<Seq<char>> {
    union_into(strings_in(items_of(base_get(existing, "fired"@))), strings_in(items_of(raw.get_spec("fired"@))))
}

/// `b` is `a` without `key` (or `a` itself, when `a` is not an object).
pub open spec fn without_field(a: Json, b: Json, key: Seq<char>) -> bool {
    if a is Object {
        b is Object && forall|k: Seq<char>| #[trigger] b.get_spec(k) == (if k == key { None } else { a.get_spec(k) })
    } else {
        b == a
    }
}

/// The document after the split: fired keys and the migration report
/// removed, and the capture position removed from its settings.
pub open spec fn split_data(raw: Json, d: Json) -> bool {
    if raw is Object {
        &&& d is Object
        &&& forall|k: Seq<char>|
            k != "settings"@ ==> #[trigger] d.get_spec(k) == (if k == "fired"@ || k == "migration"@ {
                None
            } else {
                raw.get_spec(k)
            })
        &&& match raw.get_spec("settings"@) {
            None => d.get_spec("settings"@) is None,
            Some(s) => d.get_spec("settings"@) matches Some(ds) && without_field(s, ds, "capturePos"@),
        }
    } else {
        d == raw
    }
}

/// The run-time document after the split: the existing one (empty when it
/// is not an object) with the merged fired keys, the document's migration
/// report unless it already has one, and the document's capture position
/// unless it already has one that is not null.
pub open spec fn split_runtime(raw: Json, existing: Option<Json>, rt: Json) -> bool {
    &&& rt is Object
    &&& rt.get_spec("fired"@) matches Some(Json::Array(v)) && v@.len() == merged_fired(raw, existing).len()
        && forall|i: int| 0 <= i < v@.len() ==> str_is(#[trigger] v@[i], merged_fired(raw, existing)[i])
    &&& rt.get_spec("migration"@) == (if base_get(existing, "migration"@) is Some {
        base_get(existing, "migration"@)
    } else {
        match raw.get_spec("migration"@) {
            Some(m) => if m != Json::Null { Some(m) } else { None },
            None => None,
        }
    })
    &&& rt.get_spec("capturePos"@) == (if base_get(existing, "capturePos"@) is None || base_get(existing, "capturePos"@)
        == Some(Json::Null) {
        match settings_capture(raw) {
            Some(c) => if c != Json::Null { Some(c) } else { base_get(existing, "capturePos"@) },
            None => base_get(existing, "capturePos"@),
        }
    } else {
        base_get(existing, "capturePos"@)
    })
    &&& forall|k: Seq<char>|
        k != "fired"@ && k != "migration"@ && k != "capturePos"@ ==> #[trigger] rt.get_spec(k) == base_get(existing, k)
}

fn strings_of(items: &Vec<Json>) -> (r: Vec<String>)
    ensures
        r@.map_values(|s: String| s@) == strings_in(items@),
{
    let mut r: Vec<String> = Vec::new();
    let mut i: usize = 0;
    while i < items.len()
        invariant
            i <= items@.len(),
            r@.map_values(|s: String| s@) == strings_in(items@.take(i as int)),
        decreases items@.len() - i,
    {
        proof {
            assert(items@.take(i + 1).drop_last() =~= items@.take(i as int));
            assert(items@.take(i + 1).last() == items@[i as int]);
        }
        let ghost before = r@;
        if let Json::Str(s) = &items[i] {
            r.push(s.clone());
            assert(r@.map_values(|s: String| s@) =~= before.map_values(|s: String| s@) + seq![s@]);
        } else {
            assert(strings_in(items@.take(i + 1)) =~= strings_in(items@.take(i as int)));
        }
        i = i + 1;
    }
    assert(items@.take(items@.len() as int) =~= items@);
    r
}

fn holds_text(v: &Vec<String>, s: &String) -> (r: bool)
    ensures
        r == v@.map_values(|x: String| x@).contains(s@),
{
    let ghost vs = v@.map_values(|x: String| x@);
    let mut i: usize = 0;
    while i < v.len()
        invariant
            i <= v@.len(),
            vs == v@.map_values(|x: String| x@),
            forall|j: int| 0 <= j < i ==> vs[j] != s@,
        decreases v@.len() - i,
    {
        if same_text(v[i].as_str(), s.as_str()) {
            assert(vs[i as int] == s@);
            return true;
        }
        i = i + 1;
    }
    false
}

fn add_new_strings(fired: &mut Vec<String>, items: &Vec<Json>)
    ensures
        final(fired)@.map_values(|s: String| s@) == union_into(old(fired)@.map_values(|s: String| s@), strings_in(items@)),
{
    let ghost acc = fired@.map_values(|s: String| s@);
    let ghost add = strings_in(items@);
    let texts = strings_of(items);
    let mut i: usize = 0;
    while i < texts.len()
        invariant
            i <= texts@.len(),
            texts@.map_values(|s: String| s@) == add,
            fired@.map_values(|s: String| s@) == union_into(acc, add.take(i as int)),
        decreases texts@.len() - i,
    {
        proof {
            assert(add.take(i + 1).drop_last() =~= add.take(i as int));
            assert(add.take(i + 1).last() == texts@[i as int]@);
        }
        let ghost before = fired@;
        if !holds_text(fired, &texts[i]) {
            fired.push(texts[i].clone());
            assert(fired@.map_values(|s: String| s@) =~= before.map_values(|s: String| s@).push(texts@[i as int]@));
        }
        i = i + 1;
    }
    assert(add.take(add.len() as int) =~= add);
}

fn string_values(v: Vec<String>) -> (r: Vec<Json>)
    ensures
        r@.len() == v@.len(),
        forall|i: int| 0 <= i < r@.len() ==> str_is(#[trigger] r@[i], v@[i]@),
{
    let ghost orig = v@;
    let mut v = v;
    let mut r: Vec<Json> = Vec::new();
    let ghost mut k: int = 0;
    while v.len() > 0
        invariant
            0 <= k <= orig.len(),
            v@ == orig.skip(k),
            r@.len() == k,
            forall|i: int| 0 <= i < r@.len() ==> str_is(#[trigger] r@[i], orig[i]@),
        decreases v@.len(),
    {
        let s = v.remove(0);
        proof {
            assert(s == orig[k]);
            assert(v@ =~= orig.skip(k + 1));
        }
        r.push(Json::Str(s));
        proof {
            k = k + 1;
        }
    }
    r
}

fn field_ref<'a>(fields: &'a Vec<(String, Json)>, key: &str) -> (r: Option<&'a Json>)
    ensures
        match r {
            Some(v) => field_of(fields@, key@) == Some(*v),
            None => field_of(fields@, key@) is None,
        },
{
    match find_key(fields, key) {
        Some(p) => {
            proof {
                lemma_field_of_first(fields@, key@, p as int);
            }
            Some(&fields[p].1)
        },
        None => {
            proof {
                lemma_field_of_none(fields@, key@);
            }
            None
        },
    }
}

proof fn lemma_split_keys()
    ensures
        "fired"@ != "migration"@,
        "fired"@ != "settings"@,
        "fired"@ != "capturePos"@,
        "migration"@ != "settings"@,
        "migration"@ != "capturePos"@,
        "settings"@ != "capturePos"@,
{
    reveal_strlit("fired");
    reveal_strlit("migration");
    reveal_strlit("settings");
    reveal_strlit("capturePos");
    assert("fired"@.len() == 5);
    assert("migration"@.len() == 9);
    assert("settings"@.len() == 8);
    assert("capturePos"@.len() == 10);
}

/// Split a stored document that still holds run-time state into the
/// document and the run-time document (see `split_data` and
/// `split_runtime`).
#[verifier::rlimit(40)]
pub fn split_schema(raw: Json, existing_runtime: Option<Json>) -> (r: (Json, Json))
    ensures
        split_data(raw, r.0),
        split_runtime(raw, existing_runtime, r.1),
{
    proof {
        lemma_split_keys();
    }
    let ghost raw0 = raw;
    let ghost ex0 = existing_runtime;
    let mut rfields: Vec<(String, Json)> = match existing_runtime {
        Some(Json::Object(f)) => f,
        _ => Vec::new(),
    };
    let ghost base = rfields@;
    assert forall|k: Seq<char>| #[trigger] field_of(base, k) == base_get(ex0, k) by {
        reveal_with_fuel(field_of, 1);
    }
    let mut fired: Vec<String> = match field_ref(&rfields, "fired") {
        Some(Json::Array(items)) => strings_of(items),
        _ => Vec::new(),
    };
    assert(fired@.map_values(|s: String| s@) =~= strings_in(items_of(base_get(ex0, "fired"@))));
    match raw {
        Json::Object(mut dfields) => {
            let ghost dorig = dfields@;
            assert(forall|k: Seq<char>| #[trigger] raw0.get_spec(k) == field_of(dorig, k));
            let dfired = take_field(&mut dfields, "fired");
            if let Some(Json::Array(items)) = &dfired {
                add_new_strings(&mut fired, items);
            } else {
                assert(strings_in(items_of(raw0.get_spec("fired"@))) =~= Seq::<Seq<char>>::empty());
            }
            assert(fired@.map_values(|s: String| s@) == merged_fired(raw0, ex0));
            let ghost fv = fired@;
            let fired_json = string_values(fired);
            let ghost fj = Json::Array(fired_json);
            set_field(&mut rfields, "fired", Json::Array(fired_json));
            let ghost r1 = rfields@;
            let dmig = take_field(&mut dfields, "migration");
            let has_mig = find_key(&rfields, "migration").is_some();
            if !has_mig {
                proof {
                    lemma_field_of_none(rfields@, "migration"@);
                }
                if let Some(m) = dmig {
                    if !matches!(m, Json::Null) {
                        set_field(&mut rfields, "migration", m);
                    }
                }
            } else {
                proof {
                    let p = choose|p: int| first_key_at(rfields@, "migration"@, p);
                    lemma_field_of_first(rfields@, "migration"@, p);
                }
            }
            let ghost r2 = rfields@;
            assert(field_of(r2, "migration"@) == (if base_get(ex0, "migration"@) is Some {
                base_get(ex0, "migration"@)
            } else {
                match raw0.get_spec("migration"@) {
                    Some(m) => if m != Json::Null { Some(m) } else { None },
                    None => None,
                }
            }));
            let ghost d2 = dfields@;
            let settings = take_field(&mut dfields, "settings");
            let ghost d3 = dfields@;
            let cp = match settings {
                Some(Json::Object(mut sf)) => {
                    let ghost sorig = sf@;
                    let cp = take_field(&mut sf, "capturePos");
                    let ghost s2 = sf@;
                    set_field(&mut dfields, "settings", Json::Object(sf));
                    proof {
                        let ds = Json::Object(sf);
                        assert(field_of(dfields@, "settings"@) == Some(ds));
                        assert forall|k: Seq<char>| #[trigger] ds.get_spec(k) == (if k == "capturePos"@ {
                            None
                        } else {
                            raw0.get_spec("settings"@).unwrap().get_spec(k)
                        }) by {
                            assert(ds.get_spec(k) == field_of(s2, k));
                        }
                    }
                    cp
                },
                Some(other) => {
                    set_field(&mut dfields, "settings", other);
                    None
                },
                None => None,
            };
            assert(cp == settings_capture(raw0));
            let ghost r_before_cp = rfields@;
            let existing_cp_free = match field_ref(&rfields, "capturePos") {
                None => true,
                Some(Json::Null) => true,
                Some(_) => false,
            };
            if existing_cp_free {
                if let Some(c) = cp {
                    if !matches!(c, Json::Null) {
                        set_field(&mut rfields, "capturePos", c);
                    }
                }
            }
            let d = Json::Object(dfields);
            let rt = Json::Object(rfields);
            proof {
                assert forall|k: Seq<char>|
                    k != "settings"@ implies #[trigger] d.get_spec(k) == (if k == "fired"@ || k == "migration"@ {
                        None
                    } else {
                        raw0.get_spec(k)
                    }) by {
                    assert(d.get_spec(k) == field_of(dfields@, k));
                }
                assert(d.get_spec("settings"@) == field_of(dfields@, "settings"@));
                assert(rt.get_spec("fired"@) == field_of(rfields@, "fired"@));
                assert(field_of(rfields@, "fired"@) == Some(fj));
                assert(rt.get_spec("migration"@) == field_of(r2, "migration"@));
                assert(rt.get_spec("capturePos"@) == field_of(rfields@, "capturePos"@));
                assert forall|k: Seq<char>|
                    k != "fired"@ && k != "migration"@ && k != "capturePos"@ implies #[trigger] rt.get_spec(k) == base_get(
                        ex0,
                        k,
                    ) by {
                    assert(rt.get_spec(k) == field_of(rfields@, k));
                    assert(field_of(rfields@, k) == field_of(r2, k));
                    assert(field_of(r2, k) == field_of(r1, k));
                    assert(field_of(r1, k) == field_of(base, k));
                }
            }
            (d, rt)
        },
        other => {
            assert(strings_in(items_of(raw0.get_spec("fired"@))) =~= Seq::<Seq<char>>::empty());
            assert(fired@.map_values(|s: String| s@) == merged_fired(raw0, ex0));
            let fired_json = string_values(fired);
            let ghost fj = Json::Array(fired_json);
            set_field(&mut rfields, "fired", Json::Array(fired_json));
            let rt = Json::Object(rfields);
            proof {
                assert(rt.get_spec("fired"@) == Some(fj));
                assert forall|k: Seq<char>| k != "fired"@ implies #[trigger] rt.get_spec(k) == base_get(ex0, k) by {
                    assert(rt.get_spec(k) == field_of(rfields@, k));
                }
                assert(rt.get_spec("migration"@) == base_get(ex0, "migration"@));
                assert(rt.get_spec("capturePos"@) == base_get(ex0, "capturePos"@));
            }
            (other, rt)
        },
    }
}


// ---------------------------------------------------------------- laws

/// What `normalize_stickies_v3` does to a document (`changed` is its answer).
pub open spec fn stickies_cleaned(before: Json, after: Json, changed: bool) -> bool {
    match stickies_of(before) {
        None => !changed && same_fields(before, after),
        Some(list) => {
            &&& after is Object
            &&& forall|k: Seq<char>| k != "stickies"@ ==> #[trigger] after.get_spec(k) == before.get_spec(k)
            &&& after.get_spec("stickies"@) matches Some(Json::Array(v)) && list_normalized(list, v@, changed)
        },
    }
}

proof fn lemma_filter_all<A>(s: Seq<A>, p: spec_fn(A) -> bool)
    requires
        forall|i: int| 0 <= i < s.len() ==> p(#[trigger] s[i]),
    ensures
        s.filter(p) == s,
    decreases s.len(),
{
    if s.len() > 0 {
        let t = s.drop_last();
        assert forall|i: int| 0 <= i < t.len() implies p(#[trigger] t[i]) by {
            assert(t[i] == s[i]);
        }
        lemma_filter_all(t, p);
        assert(s =~= t.push(s.last()));
        crate::store::lemma_filter_push(t, p, s.last());
    } else {
        assert(s.filter(p) =~= s);
    }
}

/// The sticky-note clean-up is idempotent: run on its own result, it
/// reports no change.
pub proof fn law_stickies_cleanup_idempotent(d0: Json, d1: Json, c1: bool, d2: Json, c2: bool)
    requires
        stickies_cleaned(d0, d1, c1),
        stickies_cleaned(d1, d2, c2),
    ensures
        !c2,
{
    match stickies_of(d0) {
        None => {
            if d0 is Object {
                assert(d1.get_spec("stickies"@) == d0.get_spec("stickies"@));
            }
        },
        Some(list) => {
            let kept = list.filter(|e: Json| !is_todo_entry(e));
            let v = match d1.get_spec("stickies"@) {
                Some(Json::Array(v)) => v@,
                _ => Seq::empty(),
            };
            assert(stickies_of(d1) == Some(v));
            assert forall|i: int| 0 <= i < v.len() implies !is_todo_entry(#[trigger] v[i]) && !entry_changes(v[i]) by {
                assert(entry_normalized(kept[i], v[i]));
                if kept[i] is Object {
                    assert(v[i].get_spec("kind"@) == normalized_field(kept[i], "kind"@));
                    assert(v[i].get_spec("pinned"@) == normalized_field(kept[i], "pinned"@));
                    assert(v[i].get_spec("hidden"@) == normalized_field(kept[i], "hidden"@));
                } else {
                    assert(kept.contains(kept[i]));
                }
            }
            lemma_filter_all(v, |e: Json| !is_todo_entry(e));
        },
    }
}

proof fn lemma_strings_in_all(v: Seq<Json>, t: Seq<Seq<char>>)
    requires
        v.len() == t.len(),
        forall|i: int| 0 <= i < v.len() ==> str_is(#[trigger] v[i], t[i]),
    ensures
        strings_in(v) == t,
    decreases v.len(),
{
    if v.len() > 0 {
        let w = v.drop_last();
        assert forall|i: int| 0 <= i < w.len() implies str_is(#[trigger] w[i], t.drop_last()[i]) by {
            assert(w[i] == v[i]);
        }
        lemma_strings_in_all(w, t.drop_last());
        assert(str_is(v[v.len() - 1], t[t.len() - 1]));
        assert(t =~= t.drop_last().push(t.last()));
    } else {
        assert(t =~= Seq::<Seq<char>>::empty());
    }
}

/// Splitting an already split document changes nothing: the document keeps
/// its fields (its settings too), and the run-time document keeps every
/// field, its fired keys too.
pub proof fn law_split_idempotent(raw: Json, existing: Option<Json>, d: Json, rt: Json, d2: Json, rt2: Json)
    requires
        split_data(raw, d),
        split_runtime(raw, existing, rt),
        split_data(d, d2),
        split_runtime(d, Some(rt), rt2),
    ensures
        forall|k: Seq<char>| k != "settings"@ ==> #[trigger] d2.get_spec(k) == d.get_spec(k),
        match d.get_spec("settings"@) {
            None => d2.get_spec("settings"@) is None,
            Some(s) => d2.get_spec("settings"@) matches Some(s2) && same_fields(s, s2),
        },
        merged_fired(d, Some(rt)) == merged_fired(raw, existing),
        forall|k: Seq<char>| k != "fired"@ ==> #[trigger] rt2.get_spec(k) == rt.get_spec(k),
        strings_in(items_of(rt2.get_spec("fired"@))) == strings_in(items_of(rt.get_spec("fired"@))),
        rt2.get_spec("fired"@) matches Some(Json::Array(v2)) && rt.get_spec("fired"@) matches Some(Json::Array(v1))
            && v2@.len() == v1@.len(),
{
    lemma_split_keys();
    assert(d.get_spec("fired"@) is None);
    assert(d.get_spec("migration"@) is None);
    if raw is Object {
        match raw.get_spec("settings"@) {
            None => {},
            Some(s) => {
                let ds = d.get_spec("settings"@).unwrap();
                assert(without_field(s, ds, "capturePos"@));
                let ds2 = d2.get_spec("settings"@).unwrap();
                assert(without_field(ds, ds2, "capturePos"@));
                if ds is Object {
                    assert forall|k: Seq<char>| #[trigger] ds2.get_spec(k) == ds.get_spec(k) by {
                        if k == "capturePos"@ {
                            assert(ds.get_spec("capturePos"@) is None);
                        }
                    }
                }
            },
        }
    }
    let v = match rt.get_spec("fired"@) {
        Some(Json::Array(v)) => v@,
        _ => Seq::empty(),
    };
    lemma_strings_in_all(v, merged_fired(raw, existing));
    assert(strings_in(items_of(d.get_spec("fired"@))) =~= Seq::<Seq<char>>::empty());
    let v2 = match rt2.get_spec("fired"@) {
        Some(Json::Array(v)) => v@,
        _ => Seq::empty(),
    };
    lemma_strings_in_all(v2, merged_fired(d, Some(rt)));
    assert(settings_capture(d) is None || settings_capture(d) == Some(Json::Null)) by {
        if raw is Object {
            match raw.get_spec("settings"@) {
                None => {},
                Some(s) => {
                    let ds = d.get_spec("settings"@).unwrap();
                    if s is Object {
                        assert(ds.get_spec("capturePos"@) is None);
                    }
                },
            }
        }
    }
}

} // verus!
