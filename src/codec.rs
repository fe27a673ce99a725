//! The record codec: a compact tree-text form (`{"name":"Alice","age":30}`) and a
//! line-oriented key-value form (`name = "Alice"` then `age = 30`).
use vstd::prelude::*;
use crate::text::{
    decimal, digits_value, escape_char, escaped, hex_char, digit_char, is_digit, lemma_decimal_digits,
    push_char, push_decimal, push_quoted, quoted,
};

verus! {

/// A record with a name and an age.
#[derive(Debug, PartialEq, Eq)]
pub struct Person {
    pub name: String,
    pub age: u8,
}

/// The reason a text could not be decoded.
#[derive(Debug, Clone, Copy, PartialEq, Eq)]
pub enum DecodeError {
    /// The text is not the tree-text form of any record.
    Malformed,
}

/// The tree-text form of a record: fields in declaration order, no whitespace.
pub open spec fn json_text(name: Seq<char>, age: nat) -> Seq<char> {
    seq!['{', '"', 'n', 'a', 'm', 'e', '"', ':'] + quoted(name) + seq![',', '"', 'a', 'g', 'e', '"', ':']
        + decimal(age) + seq!['}']
}

/// The key-value form of a record: one `key = value` line per field, each ended by a newline.
pub open spec fn key_value_text(name: Seq<char>, age: nat) -> Seq<char> {
    seq!['n', 'a', 'm', 'e', ' ', '=', ' '] + quoted(name) + seq!['\n', 'a', 'g', 'e', ' ', '=', ' ']
        + decimal(age) + seq!['\n']
}

/// Whether some record has `t` as its tree-text form.
pub open spec fn is_json_record(t: Seq<char>) -> bool {
    exists|name: Seq<char>, age: u8| json_text(name, age as nat) == t
}

/// Whether a character is a lowercase hexadecimal digit.
pub open spec fn is_hex(c: char) -> bool {
    is_digit(c) || ('a' <= c && c <= 'f')
}

/// The value of a lowercase hexadecimal digit.
pub open spec fn hex_value(c: char) -> nat {
    if is_digit(c) {
        ((c as u32) - 48) as nat
    } else {
        ((c as u32) - 87) as nat
    }
}

/// Reads one character of an escaped string at the start of `t`: the character and
/// how many positions of `t` it takes; `None` at a closing quote or a broken escape.
pub open spec fn unescape_one(t: Seq<char>) -> Option<(char, nat)> {
    if t.len() == 0 || t[0] == '"' {
        None
    } else if t[0] != '\\' {
        Some((t[0], 1))
    } else if t.len() < 2 {
        None
    } else if t[1] == '"' {
        Some(('"', 2))
    } else if t[1] == '\\' {
        Some(('\\', 2))
    } else if t[1] == 'n' {
        Some(('\n', 2))
    } else if t[1] == 'r' {
        Some(('\r', 2))
    } else if t[1] == 't' {
        Some(('\t', 2))
    } else if t[1] == 'b' {
        Some(('\x08', 2))
    } else if t[1] == 'f' {
        Some(('\x0c', 2))
    } else if t[1] == 'u' && t.len() >= 6 && t[2] == '0' && t[3] == '0' && is_hex(t[4]) && is_hex(
        t[5],
    ) {
        Some((((hex_value(t[4]) * 16 + hex_value(t[5])) as u32) as char, 6))
    } else {
        None
    }
}

/// Prefixes a decoded part onto the result of decoding the rest.
pub open spec fn shifted(m: Seq<char>, d: nat, o: Option<(Seq<char>, nat)>) -> Option<(Seq<char>, nat)> {
    match o {
        Some((m2, k)) => Some((m + m2, d + k)),
        None => None,
    }
}

/// Reads an escaped string up to and including its closing quote: the characters it
/// stands for and how many positions of `t` it takes.
pub open spec fn unescape_until_quote(t: Seq<char>) -> Option<(Seq<char>, nat)>
    decreases t.len(),
{
    if t.len() == 0 {
        None
    } else if t[0] == '"' {
        Some((Seq::empty(), 1))
    } else {
        match unescape_one(t) {
            Some((c, w)) => if 0 < w && w <= t.len() {
                shifted(seq![c], w, unescape_until_quote(t.skip(w as int)))
            } else {
                None
            },
            None => None,
        }
    }
}

proof fn lemma_unescape_one(c: char, r: Seq<char>)
    ensures
        unescape_one(escape_char(c) + r) == Some((c, escape_char(c).len())),
        escape_char(c).len() >= 1,
        escape_char(c)[0] != '"',
{
    let t = escape_char(c) + r;
    if c != '"' && c != '\\' && c != '\n' && c != '\r' && c != '\t' && c != '\x08' && c != '\x0c'
        && (c as u32) < 32 {
        let v = c as u32;
        let hi = (v / 16) as nat;
        let lo = (v % 16) as nat;
        assert(t[4] == hex_char(hi));
        assert(t[5] == hex_char(lo));
        assert(hex_char(hi) == digit_char(hi));
        assert(digit_char(hi) as u32 == hi + 48);
        if lo < 10 {
            assert(digit_char(lo) as u32 == lo + 48);
        } else {
            assert((((lo + 87) as u32) as char) as u32 == lo + 87);
        }
        assert(hex_value(t[4]) == hi);
        assert(hex_value(t[5]) == lo);
        assert(hi * 16 + lo == v);
        vstd::utf8::char_u32_cast(c, v);
    }
}

/// Reading the escaped form of `n`, closed by a quote, gives `n` back.
proof fn lemma_unescape_escaped(n: Seq<char>, r: Seq<char>)
    ensures
        unescape_until_quote(escaped(n) + seq!['"'] + r) == Some((n, escaped(n).len() + 1)),
    decreases n.len(),
{
    let t = escaped(n) + seq!['"'] + r;
    if n.len() == 0 {
        assert(t =~= seq!['"'] + r);
    } else {
        let rest = escaped(n.drop_first()) + seq!['"'] + r;
        assert(t =~= escape_char(n[0]) + rest);
        lemma_unescape_one(n[0], rest);
        let w = escape_char(n[0]).len();
        assert(t.skip(w as int) =~= rest);
        lemma_unescape_escaped(n.drop_first(), r);
        assert(seq![n[0]] + n.drop_first() =~= n);
    }
}

/// Decoding what was encoded gives back the record that was encoded: the text of a
/// record is accepted by the decoder, and no other record has the same text.
pub proof fn lemma_json_round_trip(name: Seq<char>, age: u8, name2: Seq<char>, age2: u8)
    requires
        json_text(name, age as nat) == json_text(name2, age2 as nat),
    ensures
        is_json_record(json_text(name, age as nat)),
        name == name2,
        age == age2,
{
    let age = age as nat;
    let age2 = age2 as nat;
    let head = seq!['{', '"', 'n', 'a', 'm', 'e', '"', ':', '"'];
    let tail1 = seq![',', '"', 'a', 'g', 'e', '"', ':'] + decimal(age) + seq!['}'];
    let tail2 = seq![',', '"', 'a', 'g', 'e', '"', ':'] + decimal(age2) + seq!['}'];
    let t = json_text(name, age);
    assert(t =~= head + (escaped(name) + seq!['"'] + tail1));
    assert(json_text(name2, age2) =~= head + (escaped(name2) + seq!['"'] + tail2));
    assert(t.skip(9) =~= escaped(name) + seq!['"'] + tail1);
    assert(json_text(name2, age2).skip(9) =~= escaped(name2) + seq!['"'] + tail2);
    lemma_unescape_escaped(name, tail1);
    lemma_unescape_escaped(name2, tail2);
    let k = 9 + escaped(name).len() + 1;
    assert(t.skip(k as int) =~= tail1);
    assert(t.skip(k as int) =~= tail2);
    assert(tail1.subrange(7, tail1.len() - 1) =~= decimal(age));
    assert(tail2.subrange(7, tail2.len() - 1) =~= decimal(age2));
    lemma_decimal_digits(age);
    lemma_decimal_digits(age2);
}

proof fn lemma_shifted(a: Seq<char>, d: nat, b: Seq<char>, e: nat, o: Option<(Seq<char>, nat)>)
    ensures
        shifted(a, d, shifted(b, e, o)) == shifted(a + b, d + e, o),
{
    if let Some((m, k)) = o {
        assert(a + (b + m) =~= (a + b) + m);
    }
}

fn chars_of(s: &str) -> (cs: Vec<char>)
    ensures
        cs@ == s@,
{
    let n = s.unicode_len();
    let mut cs: Vec<char> = Vec::new();
    let mut i: usize = 0;
    while i < n
        invariant
            n == s@.len(),
            i <= n,
            cs@ == s@.take(i as int),
        decreases n - i,
    {
        cs.push(s.get_char(i));
        i = i + 1;
        assert(cs@ =~= s@.take(i as int));
    }
    assert(s@.take(n as int) =~= s@);
    cs
}

fn has_at(cs: &Vec<char>, at: usize, lit: &str) -> (r: bool)
    ensures
        r == (at + lit@.len() <= cs@.len() && cs@.subrange(at as int, at + lit@.len()) == lit@),
{
    let n = lit.unicode_len();
    if at > cs.len() || cs.len() - at < n {
        return false;
    }
    let mut k: usize = 0;
    while k < n
        invariant
            n == lit@.len(),
            at + n <= cs.len(),
            k <= n,
            cs@.subrange(at as int, at + k) == lit@.take(k as int),
        decreases n - k,
    {
        if cs[at + k] != lit.get_char(k) {
            assert(cs@.subrange(at as int, at + n)[k as int] != lit@[k as int]);
            return false;
        }
        k = k + 1;
        assert(cs@.subrange(at as int, at + k) =~= lit@.take(k as int));
    }
    assert(lit@.take(n as int) =~= lit@);
    true
}

fn is_hex_char(c: char) -> (r: bool)
    ensures
        r == is_hex(c),
{
    ('0' <= c && c <= '9') || ('a' <= c && c <= 'f')
}

fn hex_value_of(c: char) -> (r: u32)
    requires
        is_hex(c),
    ensures
        r as nat == hex_value(c),
        r < 16,
{
    if '0' <= c && c <= '9' {
        c as u32 - 48
    } else {
        c as u32 - 87
    }
}

fn unescape_at(cs: &Vec<char>, i: usize) -> (r: Option<(char, usize)>)
    requires
        i <= cs.len(),
    ensures
        r is Some <==> unescape_one(cs@.skip(i as int)) is Some,
        r matches Some((c, w)) ==> unescape_one(cs@.skip(i as int)) == Some((c, w as nat)) && i + w
            <= cs.len(),
{
    let ghost t = cs@.skip(i as int);
    let n = cs.len();
    if i >= n || cs[i] == '"' {
        return None;
    }
    let c = cs[i];
    if c != '\\' {
        return Some((c, 1));
    }
    if n - i < 2 {
        return None;
    }
    let e = cs[i + 1];
    if e == '"' {
        Some(('"', 2))
    } else if e == '\\' {
        Some(('\\', 2))
    } else if e == 'n' {
        Some(('\n', 2))
    } else if e == 'r' {
        Some(('\r', 2))
    } else if e == 't' {
        Some(('\t', 2))
    } else if e == 'b' {
        Some(('\x08', 2))
    } else if e == 'f' {
        Some(('\x0c', 2))
    } else if e == 'u' && n - i >= 6 && cs[i + 2] == '0' && cs[i + 3] == '0' && is_hex_char(cs[i + 4])
        && is_hex_char(cs[i + 5]) {
        let v = hex_value_of(cs[i + 4]) * 16 + hex_value_of(cs[i + 5]);
        Some(((v as u8) as char, 6))
    } else {
        None
    }
}

fn unescape_name(cs: &Vec<char>, start: usize) -> (r: Option<(String, usize)>)
    requires
        start <= cs.len(),
    ensures
        r is Some <==> unescape_until_quote(cs@.skip(start as int)) is Some,
        r matches Some((m, j)) ==> unescape_until_quote(cs@.skip(start as int)) == Some(
            (m@, (j - start) as nat),
        ) && start < j <= cs.len(),
{
    let mut name = String::new();
    let mut i = start;
    assert(shifted(name@, 0, unescape_until_quote(cs@.skip(start as int))) == unescape_until_quote(
        cs@.skip(start as int),
    )) by {
        if let Some((m, k)) = unescape_until_quote(cs@.skip(start as int)) {
            assert(name@ + m =~= m);
        }
    }
    loop
        invariant
            start <= i <= cs.len(),
            unescape_until_quote(cs@.skip(start as int)) == shifted(
                name@,
                (i - start) as nat,
                unescape_until_quote(cs@.skip(i as int)),
            ),
        decreases cs.len() - i,
    {
        if i >= cs.len() {
            assert(cs@.skip(i as int).len() == 0);
            return None;
        }
        if cs[i] == '"' {
            assert(cs@.skip(i as int)[0] == '"');
            assert(name@ + Seq::<char>::empty() =~= name@);
            return Some((name, i + 1));
        }
        match unescape_at(cs, i) {
            None => {
                return None;
            },
            Some((c, w)) => {
                proof {
                    let t = cs@.skip(i as int);
                    assert(t.skip(w as int) =~= cs@.skip(i + w));
                    lemma_shifted(name@, (i - start) as nat, seq![c], w as nat, unescape_until_quote(cs@.skip(i + w)));
                    assert(name@.push(c) =~= name@ + seq![c]);
                }
                push_char(&mut name, c);
                i = i + w;
            },
        }
    }
}

fn read_number(cs: &Vec<char>, start: usize, Ghost(len): Ghost<nat>) -> (r: Option<(u64, usize)>)
    requires
        start <= cs.len(),
    ensures
        r matches Some((v, i)) ==> start < i <= cs.len() && v as nat == digits_value(
            cs@.subrange(start as int, i as int),
        ),
        (1 <= len <= 3 && start + len < cs.len() && (forall|q: int|
            start <= q < start + len ==> is_digit(#[trigger] cs@[q])) && !is_digit(cs@[start + len]))
            ==> r == Some((digits_value(cs@.subrange(start as int, start + len)) as u64, (start + len) as usize)),
{
    let ghost expected = 1 <= len <= 3 && start + len < cs.len() && (forall|q: int|
        start <= q < start + len ==> is_digit(#[trigger] cs@[q])) && !is_digit(cs@[start + len]);
    let mut i = start;
    let mut v: u64 = 0;
    assert(cs@.subrange(start as int, start as int) =~= Seq::<char>::empty());
    while i < cs.len() && '0' <= cs[i] && cs[i] <= '9'
        invariant
            start <= i <= cs.len(),
            i <= start + 3,
            v as nat == digits_value(cs@.subrange(start as int, i as int)),
            i - start == 0 ==> v == 0,
            i - start == 1 ==> v < 10,
            i - start == 2 ==> v < 100,
            v < 1000,
            expected ==> i <= start + len,
            expected == (1 <= len <= 3 && start + len < cs.len() && (forall|q: int|
                start <= q < start + len ==> is_digit(#[trigger] cs@[q])) && !is_digit(cs@[start + len])),
        decreases cs.len() - i,
    {
        if i - start == 3 {
            return None;
        }
        let d = cs[i] as u32 - 48;
        assert(cs@.subrange(start as int, i + 1).drop_last() =~= cs@.subrange(start as int, i as int));
        v = v * 10 + d as u64;
        i = i + 1;
    }
    if i == start {
        return None;
    }
    Some((v, i))
}

impl Person {
    /// A record with the given fields.
    pub fn new(name: String, age: u8) -> (p: Person)
        ensures
            p.name@ == name@,
            p.age == age,
    {
        Person { name, age }
    }

    /// The tree-text form of this record.
    pub fn to_json(&self) -> (r: String)
        ensures
            r@ == json_text(self.name@, self.age as nat),
    {
        let mut s = String::new();
        s.append("{\"name\":");
        push_quoted(&mut s, self.name.as_str());
        s.append(",\"age\":");
        push_decimal(&mut s, self.age as u64);
        push_char(&mut s, '}');
        proof {
            reveal_strlit("{\"name\":");
            reveal_strlit(",\"age\":");
        }
        assert(s@ =~= json_text(self.name@, self.age as nat));
        s
    }

    /// The key-value form of this record.
    pub fn to_key_value(&self) -> (r: String)
        ensures
            r@ == key_value_text(self.name@, self.age as nat),
    {
        let mut s = String::new();
        s.append("name = ");
        push_quoted(&mut s, self.name.as_str());
        s.append("\nage = ");
        push_decimal(&mut s, self.age as u64);
        push_char(&mut s, '\n');
        proof {
            reveal_strlit("name = ");
            reveal_strlit("\nage = ");
        }
        assert(s@ =~= key_value_text(self.name@, self.age as nat));
        s
    }

    /// Decodes the tree-text form of a record. Exactly the texts that some record
    /// encodes to are accepted, and the record returned encodes to the input.
    pub fn from_json(s: &str) -> (r: Result<Person, DecodeError>)
        ensures
            r is Ok <==> is_json_record(s@),
            r matches Ok(p) ==> json_text(p.name@, p.age as nat) == s@,
    {
        let cs = chars_of(s);
        let ghost has = is_json_record(s@);
        let ghost target: (Seq<char>, u8) = if has {
            choose|x: (Seq<char>, u8)| json_text(x.0, x.1 as nat) == s@
        } else {
            (Seq::empty(), 0u8)
        };
        let ghost tn = target.0;
        let ghost ta = target.1;
        let ghost dec = decimal(ta as nat);
        let ghost key = seq![',', '"', 'a', 'g', 'e', '"', ':'];
        let ghost tail = key + dec + seq!['}'];
        let ghost head = seq!['{', '"', 'n', 'a', 'm', 'e', '"', ':', '"'];
        proof {
            reveal_strlit("{\"name\":\"");
            reveal_strlit(",\"age\":");
            assert("{\"name\":\""@ =~= head);
            assert(",\"age\":"@ =~= key);
            if has {
                let (n0, a0) = choose|n: Seq<char>, a: u8| json_text(n, a as nat) == s@;
                assert(json_text(n0, a0 as nat) == s@);
                assert(json_text(tn, ta as nat) == s@);
                assert(cs@ =~= head + (escaped(tn) + seq!['"'] + tail));
                assert(cs@.subrange(0, 9) =~= head);
                assert(cs@.skip(9) =~= escaped(tn) + seq!['"'] + tail);
                lemma_unescape_escaped(tn, tail);
                lemma_decimal_digits(ta as nat);
            }
        }
        if !has_at(&cs, 0, "{\"name\":\"") {
            return Err(DecodeError::Malformed);
        }
        let (name, j) = match unescape_name(&cs, 9) {
            Some(x) => x,
            None => {
                return Err(DecodeError::Malformed);
            },
        };
        proof {
            if has {
                let j0 = 9 + escaped(tn).len() + 1;
                assert(j == j0);
                assert(cs@.subrange(j as int, j + 7) =~= key);
                assert(cs@.subrange(j + 7, j + 7 + dec.len()) =~= dec);
                assert(cs@[j + 7 + dec.len()] == '}');
                assert(cs@.len() == j + 7 + dec.len() + 1);
                assert forall|q: int| j + 7 <= q < j + 7 + dec.len() implies is_digit(#[trigger] cs@[q]) by {
                    assert(cs@[q] == dec[q - (j + 7)]);
                }
            }
        }
        if !has_at(&cs, j, ",\"age\":") {
            return Err(DecodeError::Malformed);
        }
        let (v, e) = match read_number(&cs, j + 7, Ghost(dec.len())) {
            Some(x) => x,
            None => {
                return Err(DecodeError::Malformed);
            },
        };
        if !(e < cs.len() && cs[e] == '}' && e + 1 == cs.len() && v <= 255) {
            return Err(DecodeError::Malformed);
        }
        let p = Person { name, age: v as u8 };
        let enc = p.to_json();
        let orig = String::from_str(s);
        if enc == orig {
            Ok(p)
        } else {
            proof {
                if has {
                    assert(p.name@ == tn);
                    assert(p.age == ta);
                }
            }
            Err(DecodeError::Malformed)
        }
    }
}

} // verus!
