use vstd::prelude::*;
use crate::text::{chars_of, decimal, push_str, str_eq, u64_to_string};

verus! {

/// A JSON number as the parser keeps it: a non-negative integer, a
/// negative integer, or any other number.  Of the last the library keeps
/// its text and the comparisons it decides on, made where the value was
/// read: greater than zero; at least zero and at most one; strictly between
/// -1 and 1 but not zero; a whole number.
pub enum JsonNumber {
    PosInt(u64),
    NegInt(i64),
    Float { text: String, positive: bool, unit: bool, fraction: bool, whole: bool },
}

/// A JSON value.  Object fields keep the order in which the map yields
/// them.
pub enum JsonValue {
    Null,
    Bool(bool),
    Number(JsonNumber),
    Str(String),
    Array(Vec<JsonValue>),
    Object(Vec<(String, JsonValue)>),
}

// ---------------------------------------------------------------------------
// Reading values
// ---------------------------------------------------------------------------

/// The value of the first field named `key`.
pub open spec fn field_of(fs: Seq<(String, JsonValue)>, key: Seq<char>) -> Option<JsonValue>
    decreases fs.len(),
{
    if fs.len() == 0 {
        None
    } else if fs[0].0@ == key {
        Some(fs[0].1)
    } else {
        field_of(fs.drop_first(), key)
    }
}

/// `Value::get` with a string key: a field of an object, `None` otherwise.
pub open spec fn json_get(v: JsonValue, key: Seq<char>) -> Option<JsonValue> {
    match v {
        JsonValue::Object(fs) => field_of(fs@, key),
        _ => None,
    }
}

pub open spec fn json_str(v: JsonValue) -> Option<Seq<char>> {
    match v {
        JsonValue::Str(s) => Some(s@),
        _ => None,
    }
}

pub open spec fn json_u64(v: JsonValue) -> Option<u64> {
    match v {
        JsonValue::Number(JsonNumber::PosInt(n)) => Some(n),
        _ => None,
    }
}

impl JsonValue {
    /// The field `key` of an object.
    pub fn get(&self, key: &str) -> (r: Option<&JsonValue>)
        ensures
            match json_get(*self, key@) {
                Some(v) => r matches Some(w) && *w == v,
                None => r is None,
            },
    {
        match self {
            JsonValue::Object(fs) => {
                let mut i: usize = 0;
                proof {
                    assert(fs@.skip(0) =~= fs@);
                }
                while i < fs.len()
                    invariant
                        i <= fs@.len(),
                        json_get(*self, key@) == field_of(fs@, key@),
                        field_of(fs@.skip(i as int), key@) == field_of(fs@, key@),
                    decreases fs@.len() - i,
                {
                    proof {
                        assert(fs@.skip(i as int).drop_first() =~= fs@.skip(i + 1));
                        assert(fs@.skip(i as int)[0] == fs@[i as int]);
                    }
                    if str_eq(fs[i].0.as_str(), key) {
                        return Some(&fs[i].1);
                    }
                    i = i + 1;
                }
                None
            },
            _ => None,
        }
    }

    /// The text of a string value.
    pub fn as_str(&self) -> (r: Option<&str>)
        ensures
            match json_str(*self) {
                Some(s) => r matches Some(t) && t@ == s,
                None => r is None,
            },
    {
        match self {
            JsonValue::Str(s) => Some(s.as_str()),
            _ => None,
        }
    }

    /// The items of an array.
    pub fn as_array(&self) -> (r: Option<&Vec<JsonValue>>)
        ensures
            match *self {
                JsonValue::Array(items) => r matches Some(v) && *v == items,
                _ => r is None,
            },
    {
        match self {
            JsonValue::Array(items) => Some(items),
            _ => None,
        }
    }

    /// A number that fits an unsigned 64-bit integer.
    pub fn as_u64(&self) -> (r: Option<u64>)
        ensures
            r == json_u64(*self),
    {
        match self {
            JsonValue::Number(JsonNumber::PosInt(n)) => Some(*n),
            _ => None,
        }
    }

    pub fn is_object(&self) -> (b: bool)
        ensures
            b == (*self is Object),
    {
        match self {
            JsonValue::Object(_) => true,
            _ => false,
        }
    }
}

// ---------------------------------------------------------------------------
// Compact JSON text
// ---------------------------------------------------------------------------

pub open spec fn hex_digit(d: nat) -> char {
    if d < 10 {
        (('0' as nat) + d) as char
    } else {
        (('a' as nat) + d - 10) as char
    }
}

/// How the serializer writes one character of a string.
pub open spec fn json_char(c: char) -> Seq<char> {
    if c == '"' {
        "\\\""@
    } else if c == '\\' {
        "\\\\"@
    } else if c == '\u{8}' {
        "\\b"@
    } else if c == '\u{c}' {
        "\\f"@
    } else if c == '\n' {
        "\\n"@
    } else if c == '\r' {
        "\\r"@
    } else if c == '\t' {
        "\\t"@
    } else if (c as u32) < 0x20 {
        "\\u00"@ + seq![hex_digit((c as u32 / 16) as nat), hex_digit((c as u32 % 16) as nat)]
    } else {
        seq![c]
    }
}

pub open spec fn json_chars(s: Seq<char>) -> Seq<char>
    decreases s.len(),
{
    if s.len() == 0 {
        Seq::empty()
    } else {
        json_chars(s.drop_last()) + json_char(s.last())
    }
}

/// A string as JSON text: quoted, special characters escaped.
pub open spec fn json_quoted(s: Seq<char>) -> Seq<char> {
    "\""@ + json_chars(s) + "\""@
}

pub open spec fn number_text(n: JsonNumber) -> Seq<char> {
    match n {
        JsonNumber::PosInt(u) => decimal(u as nat),
        JsonNumber::NegInt(i) => if i < 0 {
            "-"@ + decimal((-i) as nat)
        } else {
            decimal(i as nat)
        },
        JsonNumber::Float { text, .. } => text@,
    }
}

/// A value in compact JSON text, as `Value`'s `Display` writes it.
pub open spec fn json_text(v: JsonValue) -> Seq<char>
    decreases v, 0int,
{
    match v {
        JsonValue::Null => "null"@,
        JsonValue::Bool(b) => if b {
            "true"@
        } else {
            "false"@
        },
        JsonValue::Number(n) => number_text(n),
        JsonValue::Str(s) => json_quoted(s@),
        JsonValue::Array(items) => "["@ + items_text(items@, items@.len() as int) + "]"@,
        JsonValue::Object(fs) => "{"@ + fields_text(fs@, fs@.len() as int) + "}"@,
    }
}

/// The first `n` items, comma-separated.
pub open spec fn items_text(items: Seq<JsonValue>, n: int) -> Seq<char>
    decreases items, n,
{
    if n <= 0 || n > items.len() {
        Seq::empty()
    } else if n == 1 {
        json_text(items[0])
    } else {
        items_text(items, n - 1) + ","@ + json_text(items[n - 1])
    }
}

/// The first `n` fields, comma-separated, each `"key":value`.
pub open spec fn fields_text(fs: Seq<(String, JsonValue)>, n: int) -> Seq<char>
    decreases fs, n,
{
    if n <= 0 || n > fs.len() {
        Seq::empty()
    } else if n == 1 {
        json_quoted(fs[0].0@) + ":"@ + json_text(fs[0].1)
    } else {
        fields_text(fs, n - 1) + ","@ + json_quoted(fs[n - 1].0@) + ":"@ + json_text(fs[n - 1].1)
    }
}

fn push_hex(out: &mut String, d: u32)
    requires
        d < 16,
    ensures
        final(out)@ == old(out)@.push(hex_digit(d as nat)),
{
    if d < 10 {
        out.push(char_from(48 + d));
    } else {
        out.push(char_from(87 + d));
    }
}

fn char_from(n: u32) -> (c: char)
    requires
        48 <= n < 58 || 97 <= n < 103,
    ensures
        c as u32 == n,
{
    let table = chars_of("0123456789abcdef");
    proof {
        reveal_strlit("0123456789abcdef");
    }
    if n < 58 {
        let c = table[(n - 48) as usize];
        assert(c as u32 == n) by {
            assert(table@ == "0123456789abcdef"@);
        }
        c
    } else {
        let c = table[(n - 87) as usize];
        assert(c as u32 == n) by {
            assert(table@ == "0123456789abcdef"@);
        }
        c
    }
}

/// Appends a string as JSON text.
pub fn push_quoted(out: &mut String, s: &str)
    ensures
        final(out)@ == old(out)@ + json_quoted(s@),
{
    let ghost start = out@;
    push_str(out, "\"");
    let cs = chars_of(s);
    let mut i: usize = 0;
    proof {
        assert(cs@.take(0) =~= Seq::<char>::empty());
    }
    while i < cs.len()
        invariant
            i <= cs@.len(),
            cs@ == s@,
            out@ == start + "\""@ + json_chars(cs@.take(i as int)),
        decreases cs@.len() - i,
    {
        let c = cs[i];
        if c == '"' {
            push_str(out, "\\\"");
        } else if c == '\\' {
            push_str(out, "\\\\");
        } else if c == '\u{8}' {
            push_str(out, "\\b");
        } else if c == '\u{c}' {
            push_str(out, "\\f");
        } else if c == '\n' {
            push_str(out, "\\n");
        } else if c == '\r' {
            push_str(out, "\\r");
        } else if c == '\t' {
            push_str(out, "\\t");
        } else if (c as u32) < 0x20 {
            push_str(out, "\\u00");
            push_hex(out, (c as u32) / 16);
            push_hex(out, (c as u32) % 16);
        } else {
            out.push(c);
        }
        proof {
            assert(cs@.take(i + 1).drop_last() =~= cs@.take(i as int));
            assert(cs@.take(i + 1).last() == c);
            assert(out@ =~= start + "\""@ + json_chars(cs@.take(i + 1)));
        }
        i = i + 1;
    }
    push_str(out, "\"");
    proof {
        assert(cs@.take(cs@.len() as int) =~= cs@);
        assert(out@ =~= start + json_quoted(s@));
    }
}

pub fn push_number(out: &mut String, n: &JsonNumber)
    ensures
        final(out)@ == old(out)@ + number_text(*n),
{
    match n {
        JsonNumber::PosInt(u) => {
            let d = u64_to_string(*u);
            push_str(out, d.as_str());
        },
        JsonNumber::NegInt(i) => {
            if *i < 0 {
                push_str(out, "-");
                let m: u64 = if *i == i64::MIN {
                    9223372036854775808u64
                } else {
                    let p: i64 = -*i;
                    p as u64
                };
                let d = u64_to_string(m);
                push_str(out, d.as_str());
                proof {
                    assert(out@ =~= old(out)@ + number_text(*n));
                }
            } else {
                let d = u64_to_string(*i as u64);
                push_str(out, d.as_str());
            }
        },
        JsonNumber::Float { text, .. } => {
            push_str(out, text.as_str());
        },
    }
}

/// Appends a value as compact JSON text.
pub fn push_json(out: &mut String, v: &JsonValue)
    ensures
        final(out)@ == old(out)@ + json_text(*v),
    decreases v,
{
    let ghost start = out@;
    match v {
        JsonValue::Null => push_str(out, "null"),
        JsonValue::Bool(b) => if *b {
            push_str(out, "true")
        } else {
            push_str(out, "false")
        },
        JsonValue::Number(n) => push_number(out, n),
        JsonValue::Str(s) => push_quoted(out, s.as_str()),
        JsonValue::Array(items) => {
            push_str(out, "[");
            let mut i: usize = 0;
            while i < items.len()
                invariant
                    i <= items@.len(),
                    *v == JsonValue::Array(*items),
                    out@ == start + "["@ + items_text(items@, i as int),
                decreases items@.len() - i,
            {
                if i > 0 {
                    push_str(out, ",");
                }
                proof {
                    assert(decreases_to!(*v => (*v)->Array_0));
                    assert(decreases_to!(*items => items@));
                    assert(decreases_to!(items@ => items@[i as int]));
                    assert(decreases_to!(*v => items@[i as int]));
                }
                push_json(out, &items[i]);
                proof {
                    assert(out@ =~= start + "["@ + items_text(items@, i + 1));
                }
                i = i + 1;
            }
            push_str(out, "]");
        },
        JsonValue::Object(fs) => {
            push_str(out, "{");
            let mut i: usize = 0;
            while i < fs.len()
                invariant
                    i <= fs@.len(),
                    *v == JsonValue::Object(*fs),
                    out@ == start + "{"@ + fields_text(fs@, i as int),
                decreases fs@.len() - i,
            {
                if i > 0 {
                    push_str(out, ",");
                }
                push_quoted(out, fs[i].0.as_str());
                push_str(out, ":");
                proof {
                    assert(decreases_to!(*v => (*v)->Object_0));
                    assert(decreases_to!(*fs => fs@));
                    assert(decreases_to!(fs@ => fs@[i as int]));
                    assert(decreases_to!(fs@[i as int] => fs@[i as int].1));
                    assert(decreases_to!(*v => fs@[i as int].1));
                }
                push_json(out, &fs[i].1);
                proof {
                    assert(out@ =~= start + "{"@ + fields_text(fs@, i + 1));
                }
                i = i + 1;
            }
            push_str(out, "}");
        },
    }
}

/// A value as compact JSON text.
pub fn to_json_text(v: &JsonValue) -> (r: String)
    ensures
        r@ == json_text(*v),
{
    let mut out = String::new();
    push_json(&mut out, v);
    out
}

} // verus!
