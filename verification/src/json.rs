//! JSON values: the payloads of operations and the application state,
//! with their compact text form.

use vstd::prelude::*;
use crate::digest::nibble_char;
use crate::order::{string_views, text_lt};
use crate::text::{decimal, push_decimal, string_push_str};

verus! {

/// A JSON number: a non-negative integer, a negative integer, or a
/// floating-point number kept as its shortest decimal text.
#[derive(Debug, Clone)]
pub enum JsonNumber {
    PosInt(u64),
    NegInt(i64),
    Float(String),
}

/// A JSON value. Objects keep their members in key order.
#[derive(Debug)]
pub enum Json {
    Null,
    Bool(bool),
    Number(JsonNumber),
    String(String),
    Array(Vec<Json>),
    Object(Vec<(String, Json)>),
}

/// A JSON value, as values.
pub enum JsonV {
    Null,
    Bool(bool),
    PosInt(u64),
    NegInt(i64),
    Float(Seq<char>),
    Str(Seq<char>),
    Array(Seq<JsonV>),
    Object(Seq<(Seq<char>, JsonV)>),
}

/// The value of a JSON value.
pub open spec fn json_view(j: Json) -> JsonV
    decreases j,
{
    match j {
        Json::Null => JsonV::Null,
        Json::Bool(b) => JsonV::Bool(b),
        Json::Number(JsonNumber::PosInt(n)) => JsonV::PosInt(n),
        Json::Number(JsonNumber::NegInt(n)) => JsonV::NegInt(n),
        Json::Number(JsonNumber::Float(t)) => JsonV::Float(t@),
        Json::String(s) => JsonV::Str(s@),
        Json::Array(v) => JsonV::Array(items_view(v@, v@.len() as int)),
        Json::Object(m) => JsonV::Object(members_view(m@, m@.len() as int)),
    }
}

/// The values of the first `i` items.
pub open spec fn items_view(s: Seq<Json>, i: int) -> Seq<JsonV>
    decreases s, i,
{
    if i <= 0 || i > s.len() { Seq::empty() } else { items_view(s, i - 1).push(json_view(s[i - 1])) }
}

/// The values of the first `i` members.
pub open spec fn members_view(s: Seq<(String, Json)>, i: int) -> Seq<(Seq<char>, JsonV)>
    decreases s, i,
{
    if i <= 0 || i > s.len() {
        Seq::empty()
    } else {
        members_view(s, i - 1).push((s[i - 1].0@, json_view(s[i - 1].1)))
    }
}

/// The JSON escape of one character, as serde_json writes it: `\"` and
/// `\\` for the quote and the backslash; `\b`, `\t`, `\n`, `\f`, `\r` for
/// those controls; `\u00` and two lower-case hex digits for the other
/// characters below U+0020; any other character as itself.
pub open spec fn json_escape_char(c: char) -> Seq<char> {
    if c == '"' {
        seq!['\\', '"']
    } else if c == '\\' {
        seq!['\\', '\\']
    } else if c == '\u{8}' {
        seq!['\\', 'b']
    } else if c == '\t' {
        seq!['\\', 't']
    } else if c == '\n' {
        seq!['\\', 'n']
    } else if c == '\u{c}' {
        seq!['\\', 'f']
    } else if c == '\r' {
        seq!['\\', 'r']
    } else if (c as u32) < 32 {
        seq!['\\', 'u', '0', '0', nibble_char(((c as u32) / 16) as u8), nibble_char(((c as u32) % 16) as u8)]
    } else {
        seq![c]
    }
}

/// The characters of a string, each escaped for JSON.
pub open spec fn json_escaped(s: Seq<char>) -> Seq<char>
    decreases s.len(),
{
    if s.len() == 0 {
        Seq::empty()
    } else {
        json_escaped(s.drop_last()) + json_escape_char(s.last())
    }
}

/// The JSON text of a string: quoted, with escapes.
pub open spec fn json_string_of(s: Seq<char>) -> Seq<char> {
    seq!['"'] + json_escaped(s) + seq!['"']
}

/// A string in JSON text (serde_json's `to_string` on a `str`, which cannot
/// fail): in double quotes, each character escaped as `json_escape_char`
/// says (serde_json's `format_escaped_str` with its escape table).
#[verifier::external_body]
pub fn json_quote(s: &str) -> (r: String)
    ensures
        r@ == json_string_of(s@),
{
    serde_json::to_string(s).unwrap_or_default()
}

/// The decimal text of a signed integer.
pub open spec fn int_text(n: int) -> Seq<char> {
    if n < 0 { seq!['-'] + decimal((-n) as nat) } else { decimal(n as nat) }
}

/// The compact JSON text of a value: no spaces, members in stored order.
pub open spec fn json_text(v: JsonV) -> Seq<char>
    decreases v,
{
    match v {
        JsonV::Null => "null"@,
        JsonV::Bool(b) => if b { "true"@ } else { "false"@ },
        JsonV::PosInt(n) => decimal(n as nat),
        JsonV::NegInt(n) => int_text(n as int),
        JsonV::Float(t) => t,
        JsonV::Str(s) => json_string_of(s),
        JsonV::Array(items) => "["@ + items_text(items, items.len() as int) + "]"@,
        JsonV::Object(ms) => "{"@ + members_text(ms, ms.len() as int) + "}"@,
    }
}

/// The texts of the first `i` items, separated by commas.
pub open spec fn items_text(s: Seq<JsonV>, i: int) -> Seq<char>
    decreases s, i,
{
    if i <= 0 || i > s.len() {
        Seq::empty()
    } else if i == 1 {
        json_text(s[0])
    } else {
        items_text(s, i - 1) + ","@ + json_text(s[i - 1])
    }
}

/// `"key":value` for the first `i` members, separated by commas.
pub open spec fn members_text(s: Seq<(Seq<char>, JsonV)>, i: int) -> Seq<char>
    decreases s, i,
{
    if i <= 0 || i > s.len() {
        Seq::empty()
    } else if i == 1 {
        json_string_of(s[0].0) + ":"@ + json_text(s[0].1)
    } else {
        members_text(s, i - 1) + ","@ + json_string_of(s[i - 1].0) + ":"@ + json_text(s[i - 1].1)
    }
}

/// The first member named `key`, if any.
pub open spec fn member_get(ms: Seq<(Seq<char>, JsonV)>, key: Seq<char>) -> Option<JsonV>
    decreases ms.len(),
{
    if ms.len() == 0 {
        None
    } else if ms[0].0 == key {
        Some(ms[0].1)
    } else {
        member_get(ms.drop_first(), key)
    }
}

/// What `get(key)` finds: the member of an object, `None` otherwise.
pub open spec fn json_get(v: JsonV, key: Seq<char>) -> Option<JsonV> {
    match v {
        JsonV::Object(ms) => member_get(ms, key),
        _ => None,
    }
}

/// The value as an `i64`, when it is an integer in range.
pub open spec fn json_as_i64(v: JsonV) -> Option<i64> {
    match v {
        JsonV::PosInt(n) => if n <= i64::MAX { Some(n as i64) } else { None },
        JsonV::NegInt(n) => Some(n),
        _ => None,
    }
}

/// The position at which `key` goes among members in key order.
pub open spec fn key_pos(ms: Seq<(Seq<char>, JsonV)>, key: Seq<char>, i: int) -> int
    decreases ms.len() - i,
{
    if i < 0 || i >= ms.len() {
        ms.len() as int
    } else if text_lt(ms[i].0, key) {
        key_pos(ms, key, i + 1)
    } else {
        i
    }
}

/// The first position holding `key`, or -1.
pub open spec fn key_index(ms: Seq<(Seq<char>, JsonV)>, key: Seq<char>, i: int) -> int
    decreases ms.len() - i,
{
    if i < 0 || i >= ms.len() {
        -1
    } else if ms[i].0 == key {
        i
    } else {
        key_index(ms, key, i + 1)
    }
}

/// The members with `key` set to `v`: the first member with that key is
/// replaced, or a new one goes in key order.
pub open spec fn member_set(ms: Seq<(Seq<char>, JsonV)>, key: Seq<char>, v: JsonV) -> Seq<(Seq<char>, JsonV)> {
    let k = key_index(ms, key, 0);
    if k >= 0 { ms.update(k, (key, v)) } else { ms.insert(key_pos(ms, key, 0), (key, v)) }
}

/// What `value[key] = v` makes of a null or an object.
pub open spec fn json_set(j: JsonV, key: Seq<char>, v: JsonV) -> JsonV {
    match j {
        JsonV::Object(ms) => JsonV::Object(member_set(ms, key, v)),
        _ => JsonV::Object(seq![(key, v)]),
    }
}

impl View for Json {
    type V = JsonV;

    open spec fn view(&self) -> JsonV {
        json_view(*self)
    }
}

proof fn lemma_items_view(s: Seq<Json>, i: int)
    requires
        0 <= i <= s.len(),
    ensures
        items_view(s, i).len() == i,
        forall|k: int| 0 <= k < i ==> #[trigger] items_view(s, i)[k] == json_view(s[k]),
    decreases i,
{
    if i > 0 {
        lemma_items_view(s, i - 1);
    }
}

proof fn lemma_members_view(s: Seq<(String, Json)>, i: int)
    requires
        0 <= i <= s.len(),
    ensures
        members_view(s, i).len() == i,
        forall|k: int| 0 <= k < i ==> #[trigger] members_view(s, i)[k] == (s[k].0@, json_view(s[k].1)),
    decreases i,
{
    if i > 0 {
        lemma_members_view(s, i - 1);
    }
}

proof fn lemma_key_pos_bound(ms: Seq<(Seq<char>, JsonV)>, key: Seq<char>, i: int)
    requires
        0 <= i <= ms.len(),
    ensures
        i <= key_pos(ms, key, i) <= ms.len(),
    decreases ms.len() - i,
{
    if i < ms.len() && text_lt(ms[i].0, key) {
        lemma_key_pos_bound(ms, key, i + 1);
    }
}

proof fn lemma_key_index_bound(ms: Seq<(Seq<char>, JsonV)>, key: Seq<char>, i: int)
    requires
        0 <= i <= ms.len(),
    ensures
        key_index(ms, key, i) == -1 || (i <= key_index(ms, key, i) < ms.len() && ms[key_index(ms, key, i)].0
            == key),
    decreases ms.len() - i,
{
    if i < ms.len() && ms[i].0 != key {
        lemma_key_index_bound(ms, key, i + 1);
    }
}

proof fn lemma_member_get_from(ms: Seq<(Seq<char>, JsonV)>, key: Seq<char>, i: int)
    requires
        0 <= i <= ms.len(),
        forall|k: int| 0 <= k < i ==> ms[k].0 != key,
    ensures
        member_get(ms, key) == member_get(ms.subrange(i, ms.len() as int), key),
    decreases i,
{
    if i > 0 {
        lemma_member_get_from(ms, key, i - 1);
        let t = ms.subrange(i - 1, ms.len() as int);
        assert(t[0] == ms[i - 1]);
        assert(t.drop_first() =~= ms.subrange(i, ms.len() as int));
    } else {
        assert(ms.subrange(0, ms.len() as int) =~= ms);
    }
}

proof fn lemma_key_index_first(ms: Seq<(Seq<char>, JsonV)>, key: Seq<char>, i: int)
    requires
        0 <= i <= ms.len(),
    ensures
        key_index(ms, key, i) == -1 ==> forall|k: int| i <= k < ms.len() ==> ms[k].0 != key,
        key_index(ms, key, i) >= 0 ==> forall|k: int| i <= k < key_index(ms, key, i) ==> ms[k].0 != key,
    decreases ms.len() - i,
{
    if i < ms.len() && ms[i].0 != key {
        lemma_key_index_first(ms, key, i + 1);
    }
}

/// Reading a key of an object or null just after setting it gives back
/// the value that was set.
pub proof fn lemma_get_after_set(j: JsonV, key: Seq<char>, v: JsonV)
    ensures
        json_get(json_set(j, key, v), key) == Some(v),
{
    match j {
        JsonV::Object(ms) => {
            let idx = key_index(ms, key, 0);
            lemma_key_index_bound(ms, key, 0);
            lemma_key_index_first(ms, key, 0);
            let ns = member_set(ms, key, v);
            if idx >= 0 {
                lemma_member_get_from(ns, key, idx);
                let t = ns.subrange(idx, ns.len() as int);
                assert(t[0] == (key, v));
            } else {
                let p = key_pos(ms, key, 0);
                lemma_key_pos_bound(ms, key, 0);
                assert forall|k: int| 0 <= k < p implies ns[k].0 != key by {
                    assert(ns[k] == ms[k]);
                }
                lemma_member_get_from(ns, key, p);
                let t = ns.subrange(p, ns.len() as int);
                assert(t[0] == (key, v));
            }
        },
        _ => {
            let ms = seq![(key, v)];
            assert(ms[0].0 == key);
        },
    }
}

/// The values of the first `i` items: `i` of them, item by item.
pub proof fn lemma_items_view_pub(s: Seq<Json>, i: int)
    requires
        0 <= i <= s.len(),
    ensures
        items_view(s, i).len() == i,
        forall|k: int| 0 <= k < i ==> #[trigger] items_view(s, i)[k] == json_view(s[k]),
{
    lemma_items_view(s, i);
}

/// The values of the first `i` members: `i` of them, member by member.
pub proof fn lemma_members_view_pub(s: Seq<(String, Json)>, i: int)
    requires
        0 <= i <= s.len(),
    ensures
        members_view(s, i).len() == i,
        forall|k: int| 0 <= k < i ==> #[trigger] members_view(s, i)[k] == (s[k].0@, json_view(s[k].1)),
{
    lemma_members_view(s, i);
}

impl Json {
    /// A deep copy.
    pub fn copy(&self) -> (r: Json)
        ensures
            r@ == self@,
        decreases self,
    {
        match self {
            Json::Null => Json::Null,
            Json::Bool(b) => Json::Bool(*b),
            Json::Number(JsonNumber::PosInt(n)) => Json::Number(JsonNumber::PosInt(*n)),
            Json::Number(JsonNumber::NegInt(n)) => Json::Number(JsonNumber::NegInt(*n)),
            Json::Number(JsonNumber::Float(t)) => Json::Number(JsonNumber::Float(t.clone())),
            Json::String(s) => Json::String(s.clone()),
            Json::Array(v) => {
                let mut r: Vec<Json> = Vec::new();
                let mut i: usize = 0;
                while i < v.len()
                    invariant
                        *self == Json::Array(*v),
                        i <= v@.len(),
                        r@.len() == i,
                        forall|k: int| 0 <= k < i ==> (#[trigger] r@[k])@ == v@[k]@,
                    decreases v@.len() - i,
                {
                    proof {
                        let ghost w = self->Array_0;
                        assert(decreases_to!(*self => w));
                        assert(decreases_to!(w => w@));
                        assert(decreases_to!(w@ => w@[i as int]));
                    }
                    r.push(v[i].copy());
                    i = i + 1;
                }
                proof {
                    lemma_items_view(r@, r@.len() as int);
                    lemma_items_view(v@, v@.len() as int);
                    assert(items_view(r@, r@.len() as int) =~= items_view(v@, v@.len() as int));
                }
                Json::Array(r)
            },
            Json::Object(m) => {
                let mut r: Vec<(String, Json)> = Vec::new();
                let mut i: usize = 0;
                while i < m.len()
                    invariant
                        *self == Json::Object(*m),
                        i <= m@.len(),
                        r@.len() == i,
                        forall|k: int| 0 <= k < i ==> (#[trigger] r@[k]).0@ == m@[k].0@ && r@[k].1@ == m@[k].1@,
                    decreases m@.len() - i,
                {
                    proof {
                        let ghost w = self->Object_0;
                        assert(decreases_to!(*self => w));
                        assert(decreases_to!(w => w@));
                        assert(decreases_to!(w@ => w@[i as int]));
                        assert(decreases_to!(w@[i as int] => w@[i as int].1));
                    }
                    let v = m[i].1.copy();
                    r.push((m[i].0.clone(), v));
                    i = i + 1;
                }
                proof {
                    lemma_members_view(r@, r@.len() as int);
                    lemma_members_view(m@, m@.len() as int);
                    assert(members_view(r@, r@.len() as int) =~= members_view(m@, m@.len() as int));
                }
                Json::Object(r)
            },
        }
    }
}

impl Json {
    fn write_to(&self, out: &mut String)
        ensures
            final(out)@ == old(out)@ + json_text(self@),
        decreases self,
    {
        let ghost o0 = out@;
        match self {
            Json::Null => string_push_str(out, "null"),
            Json::Bool(b) => {
                if *b {
                    string_push_str(out, "true")
                } else {
                    string_push_str(out, "false")
                }
            },
            Json::Number(JsonNumber::PosInt(n)) => push_decimal(out, *n),
            Json::Number(JsonNumber::NegInt(n)) => {
                if *n < 0 {
                    string_push_str(out, "-");
                    let m: u64 = (0i128 - (*n as i128)) as u64;
                    push_decimal(out, m);
                    proof {
                        reveal_strlit("-");
                        assert(m as int == -(*n as int));
                    }
                    assert(out@ =~= o0 + int_text(*n as int));
                } else {
                    push_decimal(out, *n as u64);
                }
            },
            Json::Number(JsonNumber::Float(t)) => string_push_str(out, t.as_str()),
            Json::String(s) => {
                let q = json_quote(s.as_str());
                string_push_str(out, q.as_str());
            },
            Json::Array(v) => {
                string_push_str(out, "[");
                let ghost items = items_view(v@, v@.len() as int);
                proof { lemma_items_view(v@, v@.len() as int); }
                let mut i: usize = 0;
                while i < v.len()
                    invariant
                        *self == Json::Array(*v),
                        items == items_view(v@, v@.len() as int),
                        items.len() == v@.len(),
                        forall|k: int| 0 <= k < v@.len() ==> #[trigger] items[k] == json_view(v@[k]),
                        i <= v@.len(),
                        out@ == o0 + "["@ + items_text(items, i as int),
                    decreases v@.len() - i,
                {
                    if i > 0 {
                        string_push_str(out, ",");
                    }
                    proof {
                        let ghost w = self->Array_0;
                        assert(decreases_to!(*self => w));
                        assert(decreases_to!(w => w@));
                        assert(decreases_to!(w@ => w@[i as int]));
                    }
                    v[i].write_to(out);
                    proof {
                        assert(items[i as int] == v@[i as int]@);
                        assert(out@ =~= o0 + "["@ + items_text(items, i + 1));
                    }
                    i = i + 1;
                }
                string_push_str(out, "]");
                assert(out@ =~= o0 + json_text(self@));
            },
            Json::Object(m) => {
                string_push_str(out, "{");
                let ghost ms = members_view(m@, m@.len() as int);
                proof { lemma_members_view(m@, m@.len() as int); }
                let mut i: usize = 0;
                while i < m.len()
                    invariant
                        *self == Json::Object(*m),
                        ms == members_view(m@, m@.len() as int),
                        ms.len() == m@.len(),
                        forall|k: int| 0 <= k < m@.len() ==> #[trigger] ms[k] == (m@[k].0@, json_view(m@[k].1)),
                        i <= m@.len(),
                        out@ == o0 + "{"@ + members_text(ms, i as int),
                    decreases m@.len() - i,
                {
                    if i > 0 {
                        string_push_str(out, ",");
                    }
                    let q = json_quote(m[i].0.as_str());
                    string_push_str(out, q.as_str());
                    string_push_str(out, ":");
                    proof {
                        let ghost w = self->Object_0;
                        assert(decreases_to!(*self => w));
                        assert(decreases_to!(w => w@));
                        assert(decreases_to!(w@ => w@[i as int]));
                        assert(decreases_to!(w@[i as int] => w@[i as int].1));
                    }
                    m[i].1.write_to(out);
                    proof {
                        assert(ms[i as int] == (m@[i as int].0@, m@[i as int].1@));
                        assert(out@ =~= o0 + "{"@ + members_text(ms, i + 1));
                    }
                    i = i + 1;
                }
                string_push_str(out, "}");
                assert(out@ =~= o0 + json_text(self@));
            },
        }
    }

    /// The compact JSON text.
    pub fn to_json_string(&self) -> (s: String)
        ensures
            s@ == json_text(self@),
    {
        let mut s = String::new();
        self.write_to(&mut s);
        assert(s@ =~= json_text(self@));
        s
    }

    /// The member named `key` of an object; `None` for other values.
    pub fn get(&self, key: &str) -> (r: Option<&Json>)
        ensures
            match r {
                Some(x) => json_get(self@, key@) == Some(x@),
                None => json_get(self@, key@) is None,
            },
    {
        match self {
            Json::Object(m) => {
                let ghost ms = members_view(m@, m@.len() as int);
                proof { lemma_members_view(m@, m@.len() as int); }
                let mut i: usize = 0;
                while i < m.len()
                    invariant
                        *self == Json::Object(*m),
                        ms == members_view(m@, m@.len() as int),
                        ms.len() == m@.len(),
                        forall|k: int| 0 <= k < m@.len() ==> #[trigger] ms[k] == (m@[k].0@, json_view(m@[k].1)),
                        i <= m@.len(),
                        forall|k: int| 0 <= k < i ==> ms[k].0 != key@,
                    decreases m@.len() - i,
                {
                    if crate::assoc::str_eq(m[i].0.as_str(), key) {
                        proof {
                            assert(ms[i as int].0 == key@);
                            lemma_member_get_from(ms, key@, i as int);
                            assert(ms.subrange(i as int, ms.len() as int)[0] == ms[i as int]);
                        }
                        return Some(&m[i].1);
                    }
                    i = i + 1;
                }
                proof {
                    lemma_member_get_from(ms, key@, i as int);
                    assert(ms.subrange(i as int, ms.len() as int).len() == 0);
                }
                None
            },
            _ => None,
        }
    }

    /// The value as an `i64`, when it is an integer in range.
    pub fn as_i64(&self) -> (r: Option<i64>)
        ensures
            r == json_as_i64(self@),
    {
        match self {
            Json::Number(JsonNumber::PosInt(n)) => {
                if *n <= 0x7fff_ffff_ffff_ffffu64 {
                    Some(*n as i64)
                } else {
                    None
                }
            },
            Json::Number(JsonNumber::NegInt(n)) => Some(*n),
            _ => None,
        }
    }

    /// The text of a string value.
    pub fn as_str(&self) -> (r: Option<&str>)
        ensures
            match r {
                Some(s) => self@ == JsonV::Str(s@),
                None => !(self@ is Str),
            },
    {
        match self {
            Json::String(s) => Some(s.as_str()),
            _ => None,
        }
    }

    /// The items of an array value.
    pub fn as_array(&self) -> (r: Option<&Vec<Json>>)
        ensures
            match r {
                Some(v) => self@ == JsonV::Array(items_view(v@, v@.len() as int)),
                None => !(self@ is Array),
            },
    {
        match self {
            Json::Array(v) => Some(v),
            _ => None,
        }
    }

    /// Whether two values are equal.
    pub fn json_eq(&self, other: &Json) -> (b: bool)
        ensures
            b == (self@ == other@),
        decreases self,
    {
        match (self, other) {
            (Json::Null, Json::Null) => true,
            (Json::Bool(a), Json::Bool(b)) => *a == *b,
            (Json::Number(JsonNumber::PosInt(a)), Json::Number(JsonNumber::PosInt(b))) => *a == *b,
            (Json::Number(JsonNumber::NegInt(a)), Json::Number(JsonNumber::NegInt(b))) => *a == *b,
            (Json::Number(JsonNumber::Float(a)), Json::Number(JsonNumber::Float(b))) => crate::assoc::str_eq(
                a.as_str(),
                b.as_str(),
            ),
            (Json::String(a), Json::String(b)) => crate::assoc::str_eq(a.as_str(), b.as_str()),
            (Json::Array(v), Json::Array(w)) => {
                proof {
                    lemma_items_view(v@, v@.len() as int);
                    lemma_items_view(w@, w@.len() as int);
                }
                if v.len() != w.len() {
                    proof {
                        assert(items_view(v@, v@.len() as int).len() != items_view(w@, w@.len() as int).len());
                    }
                    return false;
                }
                let mut i: usize = 0;
                while i < v.len()
                    invariant
                        *self == Json::Array(*v),
                        *other == Json::Array(*w),
                        v@.len() == w@.len(),
                        i <= v@.len(),
                        forall|k: int| 0 <= k < i ==> json_view(#[trigger] v@[k]) == json_view(w@[k]),
                    decreases v@.len() - i,
                {
                    proof {
                        let ghost x = self->Array_0;
                        assert(decreases_to!(*self => x));
                        assert(decreases_to!(x => x@));
                        assert(decreases_to!(x@ => x@[i as int]));
                    }
                    if !v[i].json_eq(&w[i]) {
                        proof {
                            lemma_items_view(v@, v@.len() as int);
                            lemma_items_view(w@, w@.len() as int);
                            assert(items_view(v@, v@.len() as int)[i as int] != items_view(w@, w@.len() as int)[i as int]);
                        }
                        return false;
                    }
                    i = i + 1;
                }
                proof {
                    lemma_items_view(v@, v@.len() as int);
                    lemma_items_view(w@, w@.len() as int);
                    assert(items_view(v@, v@.len() as int) =~= items_view(w@, w@.len() as int));
                }
                true
            },
            (Json::Object(v), Json::Object(w)) => {
                proof {
                    lemma_members_view(v@, v@.len() as int);
                    lemma_members_view(w@, w@.len() as int);
                }
                if v.len() != w.len() {
                    proof {
                        assert(members_view(v@, v@.len() as int).len() != members_view(w@, w@.len() as int).len());
                    }
                    return false;
                }
                let mut i: usize = 0;
                while i < v.len()
                    invariant
                        *self == Json::Object(*v),
                        *other == Json::Object(*w),
                        v@.len() == w@.len(),
                        i <= v@.len(),
                        forall|k: int| 0 <= k < i ==> (#[trigger] v@[k]).0@ == w@[k].0@ && json_view(v@[k].1)
                            == json_view(w@[k].1),
                    decreases v@.len() - i,
                {
                    proof {
                        let ghost x = self->Object_0;
                        assert(decreases_to!(*self => x));
                        assert(decreases_to!(x => x@));
                        assert(decreases_to!(x@ => x@[i as int]));
                        assert(decreases_to!(x@[i as int] => x@[i as int].1));
                    }
                    if !crate::assoc::str_eq(v[i].0.as_str(), w[i].0.as_str()) || !v[i].1.json_eq(&w[i].1) {
                        proof {
                            lemma_members_view(v@, v@.len() as int);
                            lemma_members_view(w@, w@.len() as int);
                            assert(members_view(v@, v@.len() as int)[i as int] != members_view(w@, w@.len() as int)[i as int]);
                        }
                        return false;
                    }
                    i = i + 1;
                }
                proof {
                    lemma_members_view(v@, v@.len() as int);
                    lemma_members_view(w@, w@.len() as int);
                    assert(members_view(v@, v@.len() as int) =~= members_view(w@, w@.len() as int));
                }
                true
            },
            _ => false,
        }
    }

    /// Set the member `key` of an object (a null becomes an object):
    /// `value[key] = v`.
    pub fn set_member(&mut self, key: String, value: Json)
        requires
            old(self)@ is Null || old(self)@ is Object,
        ensures
            final(self)@ == json_set(old(self)@, key@, value@),
    {
        let mut taken = Json::Null;
        std::mem::swap(self, &mut taken);
        match taken {
            Json::Object(mut m) => {
                let ghost ms = members_view(m@, m@.len() as int);
                proof { lemma_members_view(m@, m@.len() as int); }
                let n = m.len();
                let mut k: usize = 0;
                while k < n && !crate::assoc::str_eq(m[k].0.as_str(), key.as_str())
                    invariant
                        n == m@.len(),
                        ms == members_view(m@, m@.len() as int),
                        ms.len() == n,
                        forall|q: int| 0 <= q < n ==> #[trigger] ms[q] == (m@[q].0@, json_view(m@[q].1)),
                        k <= n,
                        key_index(ms, key@, 0) == key_index(ms, key@, k as int),
                    decreases n - k,
                {
                    k = k + 1;
                }
                if k < n {
                    let ghost kv = key@;
                    let ghost vv = value@;
                    m.set(k, (key, value));
                    proof {
                        lemma_members_view(m@, m@.len() as int);
                        assert(members_view(m@, m@.len() as int) =~= ms.update(k as int, (kv, vv)));
                    }
                    *self = Json::Object(m);
                } else {
                    let mut p: usize = 0;
                    while p < n && crate::order::str_lt(m[p].0.as_str(), key.as_str())
                        invariant
                            n == m@.len(),
                            ms == members_view(m@, m@.len() as int),
                            ms.len() == n,
                            forall|q: int| 0 <= q < n ==> #[trigger] ms[q] == (m@[q].0@, json_view(m@[q].1)),
                            p <= n,
                            key_pos(ms, key@, 0) == key_pos(ms, key@, p as int),
                        decreases n - p,
                    {
                        p = p + 1;
                    }
                    let ghost kv = key@;
                    let ghost vv = value@;
                    m.insert(p, (key, value));
                    proof {
                        lemma_members_view(m@, m@.len() as int);
                        assert(members_view(m@, m@.len() as int) =~= ms.insert(p as int, (kv, vv)));
                    }
                    *self = Json::Object(m);
                }
            },
            _ => {
                let ghost kv = key@;
                let ghost vv = value@;
                let mut m: Vec<(String, Json)> = Vec::new();
                m.push((key, value));
                proof {
                    lemma_members_view(m@, 1);
                    assert(members_view(m@, 1) =~= seq![(kv, vv)]);
                }
                *self = Json::Object(m);
            },
        }
    }

    /// Whether this value is an object.
    pub fn is_object(&self) -> (b: bool)
        ensures
            b == (self@ is Object),
    {
        match self {
            Json::Object(_) => true,
            _ => false,
        }
    }
}

/// `"a","b"`: strings in JSON, separated by commas.
pub open spec fn strs_json(s: Seq<Seq<char>>) -> Seq<char>
    decreases s.len(),
{
    if s.len() == 0 {
        Seq::empty()
    } else if s.len() == 1 {
        json_string_of(s[0])
    } else {
        strs_json(s.drop_last()) + ","@ + json_string_of(s.last())
    }
}

/// `1,2,3`: bytes in decimal, separated by commas.
pub open spec fn bytes_json(s: Seq<u8>) -> Seq<char>
    decreases s.len(),
{
    if s.len() == 0 {
        Seq::empty()
    } else if s.len() == 1 {
        decimal(s[0] as nat)
    } else {
        bytes_json(s.drop_last()) + ","@ + decimal(s.last() as nat)
    }
}

/// Appends strings in JSON, separated by commas.
pub fn push_strs(out: &mut String, v: &Vec<String>)
    ensures
        final(out)@ == old(out)@ + strs_json(string_views(v@)),
{
    let ghost o0 = out@;
    let ghost w = string_views(v@);
    let mut i: usize = 0;
    while i < v.len()
        invariant
            w == string_views(v@),
            i <= v@.len(),
            out@ == o0 + strs_json(w.subrange(0, i as int)),
        decreases v@.len() - i,
    {
        proof { assert(w.subrange(0, i + 1).drop_last() =~= w.subrange(0, i as int)); }
        if i > 0 {
            string_push_str(out, ",");
        }
        let q = json_quote(v[i].as_str());
        string_push_str(out, q.as_str());
        proof {
            if i == 0 {
                assert(w.subrange(0, 0) =~= Seq::<Seq<char>>::empty());
            }
            assert(out@ =~= o0 + strs_json(w.subrange(0, i + 1)));
        }
        i = i + 1;
    }
    assert(w.subrange(0, w.len() as int) =~= w);
}

/// Appends bytes in decimal, separated by commas.
pub fn push_bytes(out: &mut String, v: &Vec<u8>)
    ensures
        final(out)@ == old(out)@ + bytes_json(v@),
{
    let ghost o0 = out@;
    let mut i: usize = 0;
    while i < v.len()
        invariant
            i <= v@.len(),
            out@ == o0 + bytes_json(v@.subrange(0, i as int)),
        decreases v@.len() - i,
    {
        proof { assert(v@.subrange(0, i + 1).drop_last() =~= v@.subrange(0, i as int)); }
        if i > 0 {
            string_push_str(out, ",");
        }
        push_decimal(out, v[i] as u64);
        proof {
            if i == 0 {
                assert(v@.subrange(0, 0) =~= Seq::<u8>::empty());
            }
            assert(out@ =~= o0 + bytes_json(v@.subrange(0, i + 1)));
        }
        i = i + 1;
    }
    assert(v@.subrange(0, v@.len() as int) =~= v@);
}

} // verus!
