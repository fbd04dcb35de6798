//! JSON documents: the payloads that messages carry.
//!
//! The library writes its own payloads as JSON objects, member by member, and
//! leaves the escaping of strings and the parsing of received text to
//! `serde_json`.
use vstd::prelude::*;

verus! {

/// The character of a decimal digit.
pub open spec fn digit_char(d: int) -> char {
    if d == 0 {
        '0'
    } else if d == 1 {
        '1'
    } else if d == 2 {
        '2'
    } else if d == 3 {
        '3'
    } else if d == 4 {
        '4'
    } else if d == 5 {
        '5'
    } else if d == 6 {
        '6'
    } else if d == 7 {
        '7'
    } else if d == 8 {
        '8'
    } else {
        '9'
    }
}

/// The decimal digits of a natural number, without leading zeros.
pub open spec fn digits_text(n: nat) -> Seq<char>
    decreases n,
{
    if n < 10 {
        seq![digit_char(n as int)]
    } else {
        digits_text(n / 10).push(digit_char((n % 10) as int))
    }
}

/// The decimal notation of an integer, with a minus sign when it is negative.
pub open spec fn decimal_text(n: int) -> Seq<char> {
    if n < 0 {
        seq!['-'] + digits_text((-n) as nat)
    } else {
        digits_text(n as nat)
    }
}

/// Relies on std's `Display` for `i128` (`to_string`): the integer in decimal
/// notation, with a leading `-` for negative values and no leading zeros.
#[verifier::external_body]
pub(crate) fn decimal(n: i128) -> (r: String)
    ensures
        r@ == decimal_text(n as int),
{
    n.to_string()
}

/// A lowercase hexadecimal digit.
pub open spec fn hex_char(d: int) -> char {
    if d < 10 {
        digit_char(d)
    } else if d == 10 {
        'a'
    } else if d == 11 {
        'b'
    } else if d == 12 {
        'c'
    } else if d == 13 {
        'd'
    } else if d == 14 {
        'e'
    } else {
        'f'
    }
}

/// How a character is written inside a JSON string: the quote and the
/// backslash escaped, the control characters with their short escape or as
/// `\u00XX`, every other character as it is.
pub open spec fn escape_char(c: char) -> Seq<char> {
    let n = c as u32;
    if c == '"' {
        seq!['\\', '"']
    } else if c == '\\' {
        seq!['\\', '\\']
    } else if n == 0x08 {
        seq!['\\', 'b']
    } else if n == 0x09 {
        seq!['\\', 't']
    } else if n == 0x0a {
        seq!['\\', 'n']
    } else if n == 0x0c {
        seq!['\\', 'f']
    } else if n == 0x0d {
        seq!['\\', 'r']
    } else if n < 0x20 {
        seq!['\\', 'u', '0', '0', hex_char((n / 16) as int), hex_char((n % 16) as int)]
    } else {
        seq![c]
    }
}

/// The characters of a text as they are written inside a JSON string.
pub open spec fn escaped(s: Seq<char>) -> Seq<char>
    decreases s.len(),
{
    if s.len() == 0 {
        Seq::empty()
    } else {
        escaped(s.drop_last()) + escape_char(s.last())
    }
}

/// The JSON string literal of a text: its escaped characters between quotes.
pub open spec fn json_quoted(s: Seq<char>) -> Seq<char> {
    seq!['"'] + escaped(s) + seq!['"']
}

/// Relies on `serde_json::to_string` applied to a `str`, which writes the
/// text between quotes with its escape table: `"` and `\` escaped, the
/// control characters U+0000 to U+001F as `\b`, `\t`, `\n`, `\f`, `\r` or
/// `\u00XX` with lowercase hex digits, everything else unchanged.
#[verifier::external_body]
fn quote(s: &str) -> (r: String)
    ensures
        r@ == json_quoted(s@),
{
    match serde_json::to_string(s) {
        Ok(t) => t,
        Err(_) => String::new(),
    }
}

/// Whether `serde_json` parses the bytes as one JSON document.
pub uninterp spec fn json_accepts(bytes: Seq<u8>) -> bool;

/// Relies on `serde_json::from_slice` into a `serde_json::Value`: whether the
/// bytes parse as a JSON document. The answer depends on the bytes alone.
#[verifier::external_body]
pub(crate) fn accepts_json(bytes: &[u8]) -> (r: bool)
    ensures
        r == json_accepts(bytes@),
{
    serde_json::from_slice::<serde_json::Value>(bytes).is_ok()
}

/// What `serde_json` reads from a JSON text at the top-level member `key`:
/// `None` when it does not parse the text as a document; otherwise the
/// member's value when it is a string, and its value when it is an integer
/// that fits in `i64`.
pub uninterp spec fn json_member(text: Seq<char>, key: Seq<char>) -> Option<(Option<Seq<char>>, Option<int>)>;

/// The string value of a top-level member, if the text is a JSON document
/// whose member `key` holds a string.
pub open spec fn member_str(text: Seq<char>, key: Seq<char>) -> Option<Seq<char>> {
    match json_member(text, key) {
        Some(m) => m.0,
        None => None,
    }
}

/// The integer value of a top-level member, if the text is a JSON document
/// whose member `key` holds an integer that fits in `i64`.
pub open spec fn member_int(text: Seq<char>, key: Seq<char>) -> Option<int> {
    match json_member(text, key) {
        Some(m) => m.1,
        None => None,
    }
}

/// The view of an optional string.
pub open spec fn opt_chars(s: Option<String>) -> Option<Seq<char>> {
    match s {
        Some(t) => Some(t@),
        None => None,
    }
}

/// Relies on `serde_json::from_str` into a `serde_json::Value`, then
/// `Value::get` and `Value::as_i64` on the member: the member `key` of the
/// document, as a string or as an integer. The result depends on the
/// arguments alone.
#[verifier::external_body]
fn lookup(text: &str, key: &str) -> (r: Option<(Option<String>, Option<i64>)>)
    ensures
        r is None <==> json_member(text@, key@) is None,
        r matches Some(m) ==> json_member(text@, key@) == Some(
            (opt_chars(m.0), match m.1 { Some(n) => Some(n as int), None => None }),
        ),
{
    match serde_json::from_str::<serde_json::Value>(text) {
        Err(_) => None,
        Ok(doc) => match doc.get(key) {
            Some(serde_json::Value::String(s)) => Some((Some(s.clone()), None)),
            Some(member) => Some((None, member.as_i64())),
            None => Some((None, None)),
        },
    }
}

/// Reads the string value of the top-level member `key` of a JSON text.
pub fn member_str_of(text: &str, key: &str) -> (r: Option<String>)
    ensures
        opt_chars(r) == member_str(text@, key@),
{
    match lookup(text, key) {
        Some((s, _)) => s,
        None => None,
    }
}

/// Reads the integer value of the top-level member `key` of a JSON text.
pub fn member_int_of(text: &str, key: &str) -> (r: Option<i64>)
    ensures
        match r {
            Some(n) => member_int(text@, key@) == Some(n as int),
            None => member_int(text@, key@) is None,
        },
{
    match lookup(text, key) {
        Some((_, n)) => n,
        None => None,
    }
}

/// The text of one member of an object: its quoted key, a colon and the
/// value's JSON text.
pub open spec fn member_text(m: (Seq<char>, Seq<char>)) -> Seq<char> {
    json_quoted(m.0) + ":"@ + m.1
}

/// The members of an object, separated by commas.
pub open spec fn members_text(ms: Seq<(Seq<char>, Seq<char>)>) -> Seq<char>
    decreases ms.len(),
{
    if ms.len() == 0 {
        Seq::empty()
    } else if ms.len() == 1 {
        member_text(ms[0])
    } else {
        members_text(ms.drop_last()) + ","@ + member_text(ms.last())
    }
}

/// The JSON text of an object with the given members, in order.
pub open spec fn object_text(ms: Seq<(Seq<char>, Seq<char>)>) -> Seq<char> {
    "{"@ + members_text(ms) + "}"@
}

/// The position of the last member named `k`, if any.
pub open spec fn key_index(ms: Seq<(Seq<char>, Seq<char>)>, k: Seq<char>) -> Option<int>
    decreases ms.len(),
{
    if ms.len() == 0 {
        None
    } else if ms.last().0 == k {
        Some(ms.len() - 1)
    } else {
        key_index(ms.drop_last(), k)
    }
}

/// The members after setting `k` to `v`: an existing member keeps its place
/// and takes the new value, a new one goes last.
pub open spec fn with_member(ms: Seq<(Seq<char>, Seq<char>)>, k: Seq<char>, v: Seq<char>) -> Seq<
    (Seq<char>, Seq<char>),
> {
    match key_index(ms, k) {
        Some(j) => ms.update(j, (k, v)),
        None => ms.push((k, v)),
    }
}

/// The JSON text of a boolean.
pub open spec fn bool_text(b: bool) -> Seq<char> {
    if b {
        "true"@
    } else {
        "false"@
    }
}

/// The JSON text of an array of two integers.
pub open spec fn pair_text(a: int, b: int) -> Seq<char> {
    "["@ + decimal_text(a) + ","@ + decimal_text(b) + "]"@
}

proof fn lemma_key_index_bounds(ms: Seq<(Seq<char>, Seq<char>)>, k: Seq<char>)
    ensures
        key_index(ms, k) matches Some(j) ==> 0 <= j < ms.len() && ms[j].0 == k,
    decreases ms.len(),
{
    if ms.len() > 0 && ms.last().0 != k {
        lemma_key_index_bounds(ms.drop_last(), k);
    }
}

/// A JSON object under construction: its members in order, each a key and the
/// JSON text of its value.
pub struct Document {
    members: Vec<(String, String)>,
}

impl View for Document {
    type V = Seq<(Seq<char>, Seq<char>)>;

    closed spec fn view(&self) -> Seq<(Seq<char>, Seq<char>)> {
        self.members@.map_values(|m: (String, String)| (m.0@, m.1@))
    }
}

impl Document {
    /// An object without members.
    pub fn new() -> (r: Document)
        ensures
            r@ == Seq::<(Seq<char>, Seq<char>)>::empty(),
    {
        let r = Document { members: Vec::new() };
        assert(r@ =~= Seq::<(Seq<char>, Seq<char>)>::empty());
        r
    }

    /// Sets the member `key` to the given JSON text.
    fn insert(&mut self, key: &str, value: String)
        ensures
            final(self)@ == with_member(old(self)@, key@, value@),
    {
        let ghost ms = self@;
        let k = key.to_owned();
        let n = self.members.len();
        let mut found: Option<usize> = None;
        let mut i: usize = 0;
        while i < n
            invariant
                n == self.members@.len(),
                ms == self@,
                k@ == key@,
                i <= n,
                match found {
                    Some(j) => key_index(ms.subrange(0, i as int), key@) == Some(j as int),
                    None => key_index(ms.subrange(0, i as int), key@) is None,
                },
            decreases n - i,
        {
            let ghost prefix = ms.subrange(0, i as int + 1);
            assert(prefix.drop_last() =~= ms.subrange(0, i as int));
            assert(prefix.last() == ms[i as int]);
            if self.members[i].0 == k {
                found = Some(i);
            }
            i = i + 1;
        }
        assert(ms.subrange(0, n as int) =~= ms);
        proof {
            lemma_key_index_bounds(ms, key@);
        }
        match found {
            Some(j) => {
                self.members.set(j, (k, value));
            },
            None => {
                self.members.push((k, value));
            },
        }
        assert(self@ =~= with_member(ms, key@, value@));
    }

    /// Sets the member `key` to a string.
    pub fn set_str(&mut self, key: &str, value: &str)
        ensures
            final(self)@ == with_member(old(self)@, key@, json_quoted(value@)),
    {
        let text = quote(value);
        self.insert(key, text);
    }

    /// Sets the member `key` to an integer.
    pub fn set_int(&mut self, key: &str, value: i128)
        ensures
            final(self)@ == with_member(old(self)@, key@, decimal_text(value as int)),
    {
        let text = decimal(value);
        self.insert(key, text);
    }

    /// Sets the member `key` to a boolean.
    pub fn set_bool(&mut self, key: &str, value: bool)
        ensures
            final(self)@ == with_member(old(self)@, key@, bool_text(value)),
    {
        let text = if value {
            "true".to_owned()
        } else {
            "false".to_owned()
        };
        self.insert(key, text);
    }

    /// Sets the member `key` to an array of two integers.
    pub fn set_int_pair(&mut self, key: &str, a: i128, b: i128)
        ensures
            final(self)@ == with_member(old(self)@, key@, pair_text(a as int, b as int)),
    {
        let mut text = "[".to_owned();
        let first = decimal(a);
        text.append(first.as_str());
        text.append(",");
        let second = decimal(b);
        text.append(second.as_str());
        text.append("]");
        self.insert(key, text);
    }

    /// Sets the member `key` to a nested object.
    pub fn set_document(&mut self, key: &str, value: &Document)
        ensures
            final(self)@ == with_member(old(self)@, key@, object_text(value@)),
    {
        let text = value.text();
        self.insert(key, text);
    }

    /// Whether the object has no members.
    pub fn is_empty(&self) -> (r: bool)
        ensures
            r == (self@.len() == 0),
    {
        self.members.len() == 0
    }

    /// The JSON text of the object.
    pub fn text(&self) -> (r: String)
        ensures
            r@ == object_text(self@),
    {
        let ghost ms = self@;
        let n = self.members.len();
        let mut out = "{".to_owned();
        let mut i: usize = 0;
        while i < n
            invariant
                n == self.members@.len(),
                ms == self@,
                i <= n,
                out@ == "{"@ + members_text(ms.subrange(0, i as int)),
            decreases n - i,
        {
            let ghost prefix = ms.subrange(0, i as int + 1);
            assert(prefix.drop_last() =~= ms.subrange(0, i as int));
            if i > 0 {
                out.append(",");
            }
            let key = quote(self.members[i].0.as_str());
            out.append(key.as_str());
            out.append(":");
            out.append(self.members[i].1.as_str());
            proof {
                let m = ms[i as int];
                assert(prefix.last() == m);
                if i == 0 {
                    assert(members_text(ms.subrange(0, 0)) =~= Seq::<char>::empty());
                    assert(out@ =~= "{"@ + member_text(m));
                } else {
                    assert(out@ =~= "{"@ + (members_text(ms.subrange(0, i as int)) + ","@
                        + member_text(m)));
                }
            }
            i = i + 1;
        }
        out.append("}");
        assert(ms.subrange(0, n as int) =~= ms);
        out
    }
}

} // verus!
