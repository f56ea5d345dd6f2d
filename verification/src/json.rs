//! JSON values, read and written with `serde_json`.

use crate::numeral::{number_of, parse_number};
use crate::text::same_text;
use vstd::prelude::*;
use vstd::string::*;

verus! {

/// A JSON value. A number is kept as the text that it is written with, and an
/// object as its entries in the order of their keys.
#[derive(Debug)]
pub enum Json {
    Null,
    Bool(bool),
    Number(String),
    Text(String),
    List(Vec<Json>),
    Object(Vec<(String, Json)>),
}

/// The model of a [`Json`] value.
pub enum JsonModel {
    Null,
    Bool(bool),
    Number(Seq<char>),
    Text(Seq<char>),
    List(Seq<JsonModel>),
    Object(Seq<(Seq<char>, JsonModel)>),
}

/// The model of a value.
pub open spec fn json_model(j: Json) -> JsonModel
    decreases j, 0nat,
{
    match j {
        Json::Null => JsonModel::Null,
        Json::Bool(b) => JsonModel::Bool(b),
        Json::Number(s) => JsonModel::Number(s@),
        Json::Text(s) => JsonModel::Text(s@),
        Json::List(v) => JsonModel::List(list_models(v@, v@.len())),
        Json::Object(v) => JsonModel::Object(entry_models(v@, v@.len())),
    }
}

/// The models of the first `n` values.
pub open spec fn list_models(v: Seq<Json>, n: nat) -> Seq<JsonModel>
    decreases v, n,
{
    if n == 0 || n > v.len() {
        Seq::empty()
    } else {
        list_models(v, (n - 1) as nat).push(json_model(v[n - 1]))
    }
}

/// The models of the first `n` entries.
pub open spec fn entry_models(v: Seq<(String, Json)>, n: nat) -> Seq<(Seq<char>, JsonModel)>
    decreases v, n,
{
    if n == 0 || n > v.len() {
        Seq::empty()
    } else {
        entry_models(v, (n - 1) as nat).push((v[n - 1].0@, json_model(v[n - 1].1)))
    }
}

/// The models of values, one by one.
pub proof fn lemma_list_models(v: Seq<Json>, n: nat)
    requires
        n <= v.len(),
    ensures
        list_models(v, n).len() == n,
        forall|i: int| 0 <= i < n ==> #[trigger] list_models(v, n)[i] == json_model(v[i]),
    decreases n,
{
    if n > 0 {
        lemma_list_models(v, (n - 1) as nat);
    }
}

/// The models of entries, one by one.
pub proof fn lemma_entry_models(v: Seq<(String, Json)>, n: nat)
    requires
        n <= v.len(),
    ensures
        entry_models(v, n).len() == n,
        forall|i: int|
            0 <= i < n ==> #[trigger] entry_models(v, n)[i] == (v[i].0@, json_model(v[i].1)),
    decreases n,
{
    if n > 0 {
        lemma_entry_models(v, (n - 1) as nat);
    }
}

/// The models of the first values do not depend on the others.
proof fn lemma_list_models_prefix(a: Seq<Json>, b: Seq<Json>, n: nat)
    requires
        n <= a.len(),
        n <= b.len(),
        forall|i: int| 0 <= i < n ==> a[i] == b[i],
    ensures
        list_models(a, n) == list_models(b, n),
    decreases n,
{
    if n > 0 {
        lemma_list_models_prefix(a, b, (n - 1) as nat);
    }
}

proof fn lemma_entry_models_prefix(a: Seq<(String, Json)>, b: Seq<(String, Json)>, n: nat)
    requires
        n <= a.len(),
        n <= b.len(),
        forall|i: int| 0 <= i < n ==> a[i] == b[i],
    ensures
        entry_models(a, n) == entry_models(b, n),
    decreases n,
{
    if n > 0 {
        lemma_entry_models_prefix(a, b, (n - 1) as nat);
    }
}

/// The value of the first entry with this key.
pub open spec fn entry(v: Seq<(Seq<char>, JsonModel)>, key: Seq<char>) -> Option<JsonModel>
    decreases v.len(),
{
    if v.len() == 0 {
        None
    } else if v[0].0 == key {
        Some(v[0].1)
    } else {
        entry(v.skip(1), key)
    }
}

impl View for Json {
    type V = JsonModel;

    open spec fn view(&self) -> JsonModel {
        json_model(*self)
    }
}

impl JsonModel {
    /// The member of an object with this key.
    pub open spec fn member(self, key: Seq<char>) -> Option<JsonModel> {
        match self {
            JsonModel::Object(v) => entry(v, key),
            _ => None,
        }
    }

    /// The text, if the value is one.
    pub open spec fn text(self) -> Option<Seq<char>> {
        match self {
            JsonModel::Text(s) => Some(s),
            _ => None,
        }
    }

    /// The text of a member, if there is one and it is a text.
    pub open spec fn member_text(self, key: Seq<char>) -> Option<Seq<char>> {
        match self.member(key) {
            Some(j) => j.text(),
            None => None,
        }
    }

    /// The number, if the value is one that a `u64` can hold.
    pub open spec fn number(self) -> Option<nat> {
        match self {
            JsonModel::Number(s) => parse_number(s),
            _ => None,
        }
    }

    /// The elements, if the value is a list.
    pub open spec fn elements(self) -> Option<Seq<JsonModel>> {
        match self {
            JsonModel::List(v) => Some(v),
            _ => None,
        }
    }
}

impl Json {
    /// The member of an object with this key.
    pub fn get(&self, key: &str) -> (r: Option<&Json>)
        ensures
            match r {
                Some(j) => self@.member(key@) == Some(j@),
                None => self@.member(key@) is None,
            },
    {
        match self {
            Json::Object(v) => {
                let ghost all = entry_models(v@, v@.len());
                let mut i: usize = 0;
                proof {
                    lemma_entry_models(v@, v@.len());
                    assert(all.skip(0) =~= all);
                }
                while i < v.len()
                    invariant
                        *self == Json::Object(*v),
                        i <= v@.len() == all.len(),
                        all == entry_models(v@, v@.len()),
                        entry(all, key@) == entry(all.skip(i as int), key@),
                    decreases v@.len() - i,
                {
                    proof {
                        lemma_entry_models(v@, v@.len());
                        assert(all.skip(i as int)[0] == (v@[i as int].0@, v@[i as int].1@));
                        assert(all.skip(i as int).skip(1) =~= all.skip(i + 1));
                    }
                    if same_text(v[i].0.as_str(), key) {
                        return Some(&v[i].1);
                    }
                    i += 1;
                }
                None
            },
            _ => None,
        }
    }

    /// The text, if the value is one.
    pub fn as_str(&self) -> (r: Option<&str>)
        ensures
            match r {
                Some(s) => self@.text() == Some(s@),
                None => self@.text() is None,
            },
    {
        match self {
            Json::Text(s) => Some(s.as_str()),
            _ => None,
        }
    }

    /// The text of a member, if there is one and it is a text.
    pub fn get_str(&self, key: &str) -> (r: Option<&str>)
        ensures
            match r {
                Some(s) => self@.member_text(key@) == Some(s@),
                None => self@.member_text(key@) is None,
            },
    {
        match self.get(key) {
            Some(j) => j.as_str(),
            None => None,
        }
    }

    /// The number, if the value is one that a `u64` can hold.
    pub fn as_u64(&self) -> (r: Option<u64>)
        ensures
            match r {
                Some(n) => self@.number() == Some(n as nat),
                None => self@.number() is None,
            },
    {
        match self {
            Json::Number(s) => number_of(s.as_str()),
            _ => None,
        }
    }

    /// The elements, if the value is a list.
    pub fn as_array(&self) -> (r: Option<&Vec<Json>>)
        ensures
            match r {
                Some(v) => self@.elements() == Some(list_models(v@, v@.len())),
                None => self@.elements() is None,
            },
    {
        match self {
            Json::List(v) => Some(v),
            _ => None,
        }
    }
}

// ── Building values ────────────────────────────────────────────────────────
/// Adds a value to a list.
pub fn push_value(v: &mut Vec<Json>, j: Json)
    ensures
        list_models(final(v)@, final(v)@.len()) == list_models(old(v)@, old(v)@.len()).push(
            json_model(j),
        ),
        final(v)@.len() == old(v)@.len() + 1,
{
    let ghost before = v@;
    v.push(j);
    proof {
        lemma_list_models_prefix(before, v@, before.len());
    }
}

/// Adds an entry to an object.
pub fn push_entry(v: &mut Vec<(String, Json)>, key: &str, j: Json)
    ensures
        entry_models(final(v)@, final(v)@.len()) == entry_models(old(v)@, old(v)@.len()).push(
            (key@, json_model(j)),
        ),
        final(v)@.len() == old(v)@.len() + 1,
{
    let ghost before = v@;
    v.push((key.to_owned(), j));
    proof {
        lemma_entry_models_prefix(before, v@, before.len());
    }
}

/// The JSON value of a text.
pub fn json_text(s: &str) -> (r: Json)
    ensures
        json_model(r) == JsonModel::Text(s@),
{
    Json::Text(s.to_owned())
}

// ── serde_json ─────────────────────────────────────────────────────────────
/// A JSON value of `serde_json`, which is only converted here.
#[verifier::external_type_specification]
#[verifier::external_body]
pub struct ExValue(serde_json::Value);

/// What a JSON text denotes, if it is well formed.
pub uninterp spec fn json_value(text: Seq<char>) -> Option<JsonModel>;

/// The same value as a [`Json`], one variant for each of `serde_json::Value`.
/// Nothing is claimed of it by itself; see [`parse_json`].
#[verifier::external_body]
fn from_value(v: serde_json::Value) -> (r: Json) {
    match v {
        serde_json::Value::Null => Json::Null,
        serde_json::Value::Bool(b) => Json::Bool(b),
        serde_json::Value::Number(n) => Json::Number(n.to_string()),
        serde_json::Value::String(s) => Json::Text(s),
        serde_json::Value::Array(a) => Json::List(a.into_iter().map(from_value).collect()),
        serde_json::Value::Object(m) => Json::Object(
            m.into_iter().map(|(k, x)| (k, from_value(x))).collect(),
        ),
    }
}

/// Reads a JSON text with `serde_json::from_str`. What comes back depends on
/// the text alone.
#[verifier::external_body]
pub(crate) fn parse_json(text: &str) -> (r: Option<Json>)
    ensures
        match r {
            Some(j) => json_value(text@) == Some(j@),
            None => json_value(text@) is None,
        },
{
    serde_json::from_str::<serde_json::Value>(text).ok().map(from_value)
}

/// A hexadecimal digit in lower case.
pub open spec fn hex_digit(d: int) -> char {
    if d < 10 {
        (('0' as u8) + d) as u8 as char
    } else {
        (('a' as u8) + (d - 10)) as u8 as char
    }
}

/// A character as it stands in a JSON string.
pub open spec fn json_escape(c: char) -> Seq<char> {
    if c == '"' {
        seq!['\\', '"']
    } else if c == '\\' {
        seq!['\\', '\\']
    } else if c == '\u{8}' {
        seq!['\\', 'b']
    } else if c == '\t' {
        seq!['\\', 't']
    } else if c == '\n' {
        seq!['\\', 'n']
    } else if c == '\u{c}' {
        seq!['\\', 'f']
    } else if c == '\r' {
        seq!['\\', 'r']
    } else if (c as u32) < 0x20 {
        seq![
            '\\',
            'u',
            '0',
            '0',
            hex_digit((c as u32 / 16) as int),
            hex_digit((c as u32 % 16) as int),
        ]
    } else {
        seq![c]
    }
}

/// A text as it stands between the quotation marks of a JSON string.
pub open spec fn json_escaped(s: Seq<char>) -> Seq<char>
    decreases s.len(),
{
    if s.len() == 0 {
        Seq::empty()
    } else {
        json_escaped(s.drop_last()) + json_escape(s.last())
    }
}

/// A text as a JSON string.
pub open spec fn json_quoted(s: Seq<char>) -> Seq<char> {
    seq!['"'] + json_escaped(s) + seq!['"']
}

/// Writes a text as a JSON string with `serde_json::to_string`, which does not
/// fail on a text: quotation marks round it, and an escape for a quotation
/// mark, a backslash and each control character below U+0020.
#[verifier::external_body]
pub(crate) fn quote_json(s: &str) -> (r: String)
    ensures
        r@ == json_quoted(s@),
{
    serde_json::to_string(s).unwrap_or_default()
}

// ── Laws ───────────────────────────────────────────────────────────────────
/// A member of an object is the value of the first entry with its key, and an object
/// without such an entry has no such member.
pub proof fn law_members_are_found_by_key(v: Seq<(Seq<char>, JsonModel)>, key: Seq<char>, k: int)
    ensures
        0 <= k < v.len() && v[k].0 == key && (forall|i: int| 0 <= i < k ==> (#[trigger] v[i]).0
            != key) ==> JsonModel::Object(v).member(key) == Some(v[k].1),
        (forall|i: int| 0 <= i < v.len() ==> (#[trigger] v[i]).0 != key) ==> JsonModel::Object(
            v,
        ).member(key) is None,
    decreases v.len(),
{
    if v.len() > 0 && v[0].0 != key {
        law_members_are_found_by_key(v.skip(1), key, k - 1);
        let rest = v.skip(1);
        if forall|i: int| 0 <= i < v.len() ==> (#[trigger] v[i]).0 != key {
            assert forall|i: int| 0 <= i < rest.len() implies (#[trigger] rest[i]).0 != key by {
                assert(rest[i] == v[i + 1]);
            }
        }
        if 0 <= k < v.len() && v[k].0 == key && (forall|i: int|
            0 <= i < k ==> (#[trigger] v[i]).0 != key) {
            assert(rest[k - 1] == v[k]);
            assert forall|i: int| 0 <= i < k - 1 implies (#[trigger] rest[i]).0 != key by {
                assert(rest[i] == v[i + 1]);
            }
        }
    }
}

/// A text in quotes is written character by character, holds no line feed and no other
/// control character, and stays as it is where it holds none of these and neither a
/// quotation mark nor a backslash.
pub proof fn law_quoted_texts_stand_on_one_line(a: Seq<char>, b: Seq<char>)
    ensures
        json_escaped(a + b) == json_escaped(a) + json_escaped(b),
        forall|i: int|
            0 <= i < json_quoted(a).len() ==> (#[trigger] json_quoted(a)[i]) as u32 >= 0x20,
        (forall|i: int|
            0 <= i < a.len() ==> (#[trigger] a[i]) as u32 >= 0x20 && a[i] != '"' && a[i] != '\\')
            ==> json_quoted(a) == seq!['"'] + a + seq!['"'],
{
    lemma_escaped_concat(a, b);
    lemma_escaped_plain(a);
}

proof fn lemma_escaped_concat(a: Seq<char>, b: Seq<char>)
    ensures
        json_escaped(a + b) == json_escaped(a) + json_escaped(b),
    decreases b.len(),
{
    if b.len() == 0 {
        assert(a + b =~= a);
        assert(json_escaped(a) + json_escaped(b) =~= json_escaped(a));
    } else {
        lemma_escaped_concat(a, b.drop_last());
        assert((a + b).drop_last() =~= a + b.drop_last());
        assert((a + b).last() == b.last());
        assert(json_escaped(a) + (json_escaped(b.drop_last()) + json_escape(b.last()))
            =~= json_escaped(a) + json_escaped(b.drop_last()) + json_escape(b.last()));
    }
}

proof fn lemma_escaped_plain(s: Seq<char>)
    ensures
        forall|i: int|
            0 <= i < json_escaped(s).len() ==> (#[trigger] json_escaped(s)[i]) as u32 >= 0x20,
        (forall|i: int|
            0 <= i < s.len() ==> (#[trigger] s[i]) as u32 >= 0x20 && s[i] != '"' && s[i] != '\\')
            ==> json_escaped(s) == s,
    decreases s.len(),
{
    if s.len() > 0 {
        let c = s.last();
        let rest = s.drop_last();
        lemma_escaped_plain(rest);
        let e = json_escape(c);
        assert forall|i: int| 0 <= i < e.len() implies (#[trigger] e[i]) as u32 >= 0x20 by {
            if (c as u32) < 0x20 {
                let x = (c as u32 / 16) as int;
                let y = (c as u32 % 16) as int;
                assert(0 <= x < 16 && 0 <= y < 16);
                assert(hex_digit(x) as u32 >= 0x30);
                assert(hex_digit(y) as u32 >= 0x30);
            }
        }
        let all = json_escaped(s);
        let before = json_escaped(rest);
        assert forall|i: int| 0 <= i < all.len() implies (#[trigger] all[i]) as u32 >= 0x20 by {
            if i < before.len() {
                assert(all[i] == before[i]);
            } else {
                assert(all[i] == e[i - before.len()]);
            }
        }
        if forall|i: int|
            0 <= i < s.len() ==> (#[trigger] s[i]) as u32 >= 0x20 && s[i] != '"' && s[i] != '\\' {
            assert forall|i: int| 0 <= i < rest.len() implies (#[trigger] rest[i]) as u32 >= 0x20
                && rest[i] != '"' && rest[i] != '\\' by {
                assert(rest[i] == s[i]);
            }
            assert(s[s.len() - 1] == c);
            assert(rest + seq![c] =~= s);
        }
    }
}

} // verus!
