//! The JSON form of a result set: an array with one object per unit, in
//! order of the unit identifiers, with the fields `unit`, `state`,
//! `sub_state` and `elapsed_seconds`.

use vstd::prelude::*;
use crate::results::ResultSet;
use crate::unit::{parse_state, state_name, ActiveState, UnitInfo};

verus! {

/// Decimal digits.
pub const DIGITS: &'static str = "0123456789";

/// Hexadecimal digits, lower case.
pub const HEX_DIGITS: &'static str = "0123456789abcdef";

/// The decimal notation of `n`, without leading zeros.
pub open spec fn decimal(n: nat) -> Seq<char>
    decreases n,
{
    if n < 10 {
        DIGITS@.subrange(n as int, n as int + 1)
    } else {
        decimal(n / 10) + DIGITS@.subrange((n % 10) as int, (n % 10) as int + 1)
    }
}

/// The decimal notation of `n`.
pub fn decimal_text(n: u64) -> (r: String)
    ensures
        r@ == decimal(n as nat),
{
    proof {
        reveal_strlit("0123456789");
    }
    let mut m: u64 = n;
    let mut r = String::new();
    while m >= 10
        invariant
            DIGITS@.len() == 10,
            decimal(n as nat) == decimal(m as nat) + r@,
        decreases m,
    {
        let d = (m % 10) as usize;
        let digit = DIGITS.substring_char(d, d + 1);
        let next = String::from_str(digit).concat(r.as_str());
        assert(decimal(m as nat) == decimal((m / 10) as nat) + digit@);
        assert(decimal(m as nat) + r@ =~= decimal((m / 10) as nat) + next@);
        r = next;
        m = m / 10;
    }
    let d = m as usize;
    let digit = DIGITS.substring_char(d, d + 1);
    String::from_str(digit).concat(r.as_str())
}

/// How one character is written inside a JSON string.
pub open spec fn escaped_char(c: char) -> Seq<char> {
    if c == '"' {
        "\\\""@
    } else if c == '\\' {
        "\\\\"@
    } else if 0 <= (c as int) < 0x20 {
        "\\u00"@ + HEX_DIGITS@.subrange((c as int) / 16, (c as int) / 16 + 1)
            + HEX_DIGITS@.subrange((c as int) % 16, (c as int) % 16 + 1)
    } else {
        seq![c]
    }
}

/// The characters of `s`, each escaped for a JSON string.
pub open spec fn escaped(s: Seq<char>) -> Seq<char>
    decreases s.len(),
{
    if s.len() == 0 {
        Seq::empty()
    } else {
        escaped(s.drop_last()) + escaped_char(s.last())
    }
}

/// `s` as a JSON string literal.
pub open spec fn json_string(s: Seq<char>) -> Seq<char> {
    "\""@ + escaped(s) + "\""@
}

/// Appends `s` to `out` as a JSON string literal.
pub fn push_json_string(out: String, s: &str) -> (r: String)
    ensures
        r@ == out@ + json_string(s@),
{
    proof {
        reveal_strlit("0123456789abcdef");
    }
    let mut acc = out.concat("\"");
    let n = s.unicode_len();
    let mut i: usize = 0;
    while i < n
        invariant
            n == s@.len(),
            i <= n,
            HEX_DIGITS@.len() == 16,
            acc@ == out@ + "\""@ + escaped(s@.subrange(0, i as int)),
        decreases n - i,
    {
        let c = s.get_char(i);
        let ghost before = acc@;
        if c == '"' {
            acc = acc.concat("\\\"");
        } else if c == '\\' {
            acc = acc.concat("\\\\");
        } else if (c as u32) < 0x20 {
            let hi = (c as u32 / 16) as usize;
            let lo = (c as u32 % 16) as usize;
            acc = acc.concat("\\u00");
            acc = acc.concat(HEX_DIGITS.substring_char(hi, hi + 1));
            acc = acc.concat(HEX_DIGITS.substring_char(lo, lo + 1));
        } else {
            acc = acc.concat(s.substring_char(i, i + 1));
        }
        proof {
            let p = s@.subrange(0, i + 1);
            assert(p.drop_last() =~= s@.subrange(0, i as int));
            assert(p.last() == c);
            assert(acc@ =~= before + escaped_char(c));
        }
        i = i + 1;
    }
    assert(s@.subrange(0, n as int) =~= s@);
    acc.concat("\"")
}

/// The JSON object for one unit.
pub open spec fn json_record(unit: Seq<char>, info: UnitInfo) -> Seq<char> {
    "{\"unit\":"@ + json_string(unit) + ",\"state\":"@ + json_string(state_name(info.state.state))
        + ",\"sub_state\":"@ + json_string(info.state.sub_state@) + ",\"elapsed_seconds\":"@
        + decimal(info.time_since_state_change as nat) + "}"@
}

/// The JSON object of one entry.
pub open spec fn entry_record(e: (String, UnitInfo)) -> Seq<char> {
    json_record(e.0@, e.1)
}

/// The JSON objects of the entries, each preceded by a comma.
pub open spec fn json_more(s: Seq<(String, UnitInfo)>) -> Seq<char>
    decreases s.len(),
{
    if s.len() == 0 {
        Seq::empty()
    } else {
        ","@ + entry_record(s[0]) + json_more(s.drop_first())
    }
}

/// The JSON objects of the entries, separated by commas.
pub open spec fn json_records(s: Seq<(String, UnitInfo)>) -> Seq<char> {
    if s.len() == 0 {
        Seq::empty()
    } else {
        entry_record(s[0]) + json_more(s.drop_first())
    }
}

proof fn lemma_json_more_push(s: Seq<(String, UnitInfo)>, e: (String, UnitInfo))
    ensures
        json_more(s.push(e)) == json_more(s) + ","@ + entry_record(e),
    decreases s.len(),
{
    if s.len() == 0 {
        assert(s.push(e).drop_first() =~= s);
        assert(json_more(s.push(e)) =~= json_more(s) + ","@ + entry_record(e));
    } else {
        lemma_json_more_push(s.drop_first(), e);
        assert(s.push(e).drop_first() =~= s.drop_first().push(e));
        assert(json_more(s.push(e)) =~= json_more(s) + ","@ + entry_record(e));
    }
}

/// Appends the JSON object for one unit to `out`.
pub fn push_json_record(out: String, unit: &String, info: &UnitInfo) -> (r: String)
    ensures
        r@ == out@ + json_record(unit@, *info),
{
    let acc = out.concat("{\"unit\":");
    let acc = push_json_string(acc, unit.as_str());
    let acc = acc.concat(",\"state\":");
    let acc = push_json_string(acc, info.state.state.name());
    let acc = acc.concat(",\"sub_state\":");
    let acc = push_json_string(acc, info.state.sub_state.as_str());
    let acc = acc.concat(",\"elapsed_seconds\":");
    let num = decimal_text(info.time_since_state_change);
    let acc = acc.concat(num.as_str());
    let r = acc.concat("}");
    assert(r@ =~= out@ + json_record(unit@, *info));
    r
}

/// The results as a JSON array of objects, in order of the unit identifiers.
pub fn json_report(data: &ResultSet) -> (r: String)
    requires
        data.wf(),
    ensures
        r@ == "["@ + json_records(data.entry_seq()) + "]"@,
{
    let n = data.len();
    let mut acc = String::from_str("[");
    let mut i: usize = 0;
    while i < n
        invariant
            n == data.entry_seq().len(),
            i <= n,
            acc@ == "["@ + json_records(data.entry_seq().subrange(0, i as int)),
        decreases n - i,
    {
        let entry = data.entry(i);
        let ghost before = acc@;
        if i > 0 {
            acc = acc.concat(",");
        }
        acc = push_json_record(acc, &entry.0, &entry.1);
        proof {
            let q = data.entry_seq().subrange(0, i as int);
            let p = data.entry_seq().subrange(0, i + 1);
            assert(p =~= q.push(*entry));
            if i == 0 {
                assert(p.drop_first() =~= Seq::<(String, UnitInfo)>::empty());
                assert(acc@ =~= "["@ + json_records(p));
            } else {
                lemma_json_more_push(q.drop_first(), *entry);
                assert(p.drop_first() =~= q.drop_first().push(*entry));
                assert(acc@ =~= "["@ + json_records(p));
            }
        }
        i = i + 1;
    }
    assert(data.entry_seq().subrange(0, n as int) =~= data.entry_seq());
    acc.concat("]")
}

/// A decimal digit.
pub open spec fn is_digit(c: char) -> bool {
    48 <= (c as int) <= 57
}

/// A lower-case hexadecimal digit.
pub open spec fn is_hex(c: char) -> bool {
    is_digit(c) || 97 <= (c as int) <= 102
}

/// The value of a hexadecimal digit.
pub open spec fn hex_value(c: char) -> int {
    if is_digit(c) {
        (c as int) - 48
    } else {
        (c as int) - 87
    }
}

/// The code point of a character.
pub open spec fn code_of(c: char) -> int {
    c as int
}

/// The character with code point `code`.
pub open spec fn char_with_code(code: int) -> char {
    choose|c: char| #[trigger] code_of(c) == code
}

/// The characters of an escaped string body up to its closing quote, and
/// what follows the quote.
pub open spec fn decode_body(x: Seq<char>) -> Option<(Seq<char>, Seq<char>)>
    decreases x.len(),
{
    if x.len() == 0 {
        None
    } else if x[0] == '"' {
        Some((Seq::empty(), x.drop_first()))
    } else if x[0] == '\\' {
        if x.len() >= 2 && (x[1] == '"' || x[1] == '\\') {
            match decode_body(x.skip(2)) {
                Some((b, rest)) => Some((seq![x[1]] + b, rest)),
                None => None,
            }
        } else if x.len() >= 6 && x[1] == 'u' && x[2] == '0' && x[3] == '0' && is_hex(x[4]) && is_hex(x[5]) {
            let code = hex_value(x[4]) * 16 + hex_value(x[5]);
            match decode_body(x.skip(6)) {
                Some((b, rest)) => Some((seq![char_with_code(code)] + b, rest)),
                None => None,
            }
        } else {
            None
        }
    } else {
        match decode_body(x.drop_first()) {
            Some((b, rest)) => Some((seq![x[0]] + b, rest)),
            None => None,
        }
    }
}

proof fn lemma_escaped_concat(a: Seq<char>, b: Seq<char>)
    ensures
        escaped(a + b) == escaped(a) + escaped(b),
    decreases b.len(),
{
    if b.len() == 0 {
        assert(a + b =~= a);
        assert(escaped(a) + escaped(b) =~= escaped(a));
    } else {
        lemma_escaped_concat(a, b.drop_last());
        assert((a + b).drop_last() =~= a + b.drop_last());
        assert(escaped(a + b) =~= escaped(a) + escaped(b));
    }
}

proof fn lemma_hex_digits()
    ensures
        HEX_DIGITS@.len() == 16,
        forall|i: int| 0 <= i < 16 ==> is_hex(#[trigger] HEX_DIGITS@[i]) && hex_value(HEX_DIGITS@[i]) == i,
{
    reveal_strlit("0123456789abcdef");
}

/// The body of an escaped string, closed by a quote, decodes to the string.
proof fn lemma_decode_body(s: Seq<char>, t: Seq<char>)
    ensures
        decode_body(escaped(s) + seq!['"'] + t) == Some((s, t)),
    decreases s.len(),
{
    reveal_strlit("\\\"");
    reveal_strlit("\\\\");
    reveal_strlit("\\u00");
    if s.len() == 0 {
        assert(escaped(s) + seq!['"'] + t =~= seq!['"'] + t);
        assert((seq!['"'] + t).drop_first() =~= t);
    } else {
        let c = s[0];
        let r = s.drop_first();
        lemma_decode_body(r, t);
        lemma_escaped_concat(seq![c], r);
        assert(s =~= seq![c] + r);
        assert(seq![c].drop_last() =~= Seq::<char>::empty());
        assert(escaped(Seq::<char>::empty()) =~= Seq::<char>::empty());
        assert(seq![c].last() == c);
        assert(escaped(seq![c]) =~= escaped_char(c));
        let y = escaped(r) + seq!['"'] + t;
        let x = escaped(s) + seq!['"'] + t;
        assert(x =~= escaped_char(c) + y);
        if c == '"' || c == '\\' {
            assert(x.skip(2) =~= y);
            assert(seq![x[1]] + r =~= s);
        } else if 0 <= (c as int) < 0x20 {
            lemma_hex_digits();
            let hi = (c as int) / 16;
            let lo = (c as int) % 16;
            assert(0 <= hi < 16 && 0 <= lo < 16);
            assert(escaped_char(c) =~= seq!['\\', 'u', '0', '0', HEX_DIGITS@[hi], HEX_DIGITS@[lo]]);
            assert(x.skip(6) =~= y);
            assert(x[4] == HEX_DIGITS@[hi]);
            assert(x[5] == HEX_DIGITS@[lo]);
            let code = hex_value(x[4]) * 16 + hex_value(x[5]);
            assert(code == c as int);
            assert(code_of(c) == code);
            let d = char_with_code(code);
            assert(code_of(d) == code);
            assert(seq![d] + r =~= s);
        } else {
            assert(x.drop_first() =~= y);
            assert(seq![x[0]] + r =~= s);
        }
    }
}

/// The length of the run of decimal digits at the front of `x`.
pub open spec fn digit_run(x: Seq<char>) -> nat
    decreases x.len(),
{
    if x.len() > 0 && is_digit(x[0]) {
        1 + digit_run(x.drop_first())
    } else {
        0
    }
}

/// The value of a string of decimal digits.
pub open spec fn digits_value(d: Seq<char>) -> nat
    decreases d.len(),
{
    if d.len() == 0 {
        0
    } else {
        (digits_value(d.drop_last()) * 10 + ((d.last() as int) - 48)) as nat
    }
}

proof fn lemma_digits()
    ensures
        DIGITS@.len() == 10,
        forall|i: int| 0 <= i < 10 ==> is_digit(#[trigger] DIGITS@[i]) && (DIGITS@[i] as int) - 48 == i,
{
    reveal_strlit("0123456789");
}

proof fn lemma_decimal(n: nat)
    ensures
        decimal(n).len() >= 1,
        forall|i: int| 0 <= i < decimal(n).len() ==> is_digit(#[trigger] decimal(n)[i]),
        digits_value(decimal(n)) == n,
    decreases n,
{
    lemma_digits();
    if n < 10 {
        assert(decimal(n).drop_last() =~= Seq::<char>::empty());
        assert(decimal(n).last() == DIGITS@[n as int]);
        assert(digits_value(decimal(n)) == digits_value(decimal(n).drop_last()) * 10 + ((decimal(n).last() as int) - 48));
    } else {
        lemma_decimal(n / 10);
        let d = decimal(n);
        assert(d.drop_last() =~= decimal(n / 10));
        assert(d.last() == DIGITS@[(n % 10) as int]);
        assert(digits_value(d) == digits_value(d.drop_last()) * 10 + ((d.last() as int) - 48));
        assert forall|i: int| 0 <= i < d.len() implies is_digit(#[trigger] d[i]) by {
            if i < d.len() - 1 {
                assert(d[i] == decimal(n / 10)[i]);
            }
        }
    }
}

proof fn lemma_digit_run(d: Seq<char>, t: Seq<char>)
    requires
        forall|i: int| 0 <= i < d.len() ==> is_digit(#[trigger] d[i]),
        t.len() == 0 || !is_digit(t[0]),
    ensures
        digit_run(d + t) == d.len(),
    decreases d.len(),
{
    if d.len() == 0 {
        assert(d + t =~= t);
    } else {
        assert((d + t).drop_first() =~= d.drop_first() + t);
        assert forall|i: int| 0 <= i < d.drop_first().len() implies is_digit(#[trigger] d.drop_first()[i]) by {
            assert(d.drop_first()[i] == d[i + 1]);
        }
        lemma_digit_run(d.drop_first(), t);
    }
}

/// What follows the literal `lit` at the front of `x`.
pub open spec fn strip(x: Seq<char>, lit: Seq<char>) -> Option<Seq<char>> {
    if lit.len() <= x.len() && x.subrange(0, lit.len() as int) == lit {
        Some(x.skip(lit.len() as int))
    } else {
        None
    }
}

proof fn lemma_strip(lit: Seq<char>, y: Seq<char>)
    ensures
        strip(lit + y, lit) == Some(y),
{
    assert((lit + y).subrange(0, lit.len() as int) =~= lit);
    assert((lit + y).skip(lit.len() as int) =~= y);
}

/// A JSON string literal at the front of `x`, decoded, and what follows it.
pub open spec fn decode_string(x: Seq<char>) -> Option<(Seq<char>, Seq<char>)> {
    match strip(x, "\""@) {
        Some(y) => decode_body(y),
        None => None,
    }
}

/// A number at the front of `x`, and what follows it.
pub open spec fn decode_number(x: Seq<char>) -> Option<(nat, Seq<char>)> {
    let k = digit_run(x);
    if k == 0 {
        None
    } else {
        Some((digits_value(x.subrange(0, k as int)), x.skip(k as int)))
    }
}

/// What a reader of the JSON form learns of one unit: identifier, coarse
/// state, sub-state, elapsed seconds.
pub type Record = (Seq<char>, ActiveState, Seq<char>, nat);

/// The record of an entry.
pub open spec fn record_of(e: (String, UnitInfo)) -> Record {
    (e.0@, e.1.state.state, e.1.state.sub_state@, e.1.time_since_state_change as nat)
}

/// One JSON object at the front of `x`, decoded, and what follows it.
#[verifier::opaque]
pub open spec fn decode_record(x: Seq<char>) -> Option<(Record, Seq<char>)> {
    match strip(x, "{\"unit\":"@) {
        None => None,
        Some(x1) => match decode_string(x1) {
            None => None,
            Some((unit, x2)) => match strip(x2, ",\"state\":"@) {
                None => None,
                Some(x3) => match decode_string(x3) {
                    None => None,
                    Some((state, x4)) => match strip(x4, ",\"sub_state\":"@) {
                        None => None,
                        Some(x5) => match decode_string(x5) {
                            None => None,
                            Some((sub, x6)) => match strip(x6, ",\"elapsed_seconds\":"@) {
                                None => None,
                                Some(x7) => match decode_number(x7) {
                                    None => None,
                                    Some((n, x8)) => match (strip(x8, "}"@), parse_state(state)) {
                                        (Some(x9), Some(st)) => Some(((unit, st, sub, n), x9)),
                                        _ => None,
                                    },
                                },
                            },
                        },
                    },
                },
            },
        },
    }
}

proof fn lemma_decode_string(s: Seq<char>, t: Seq<char>)
    ensures
        decode_string(json_string(s) + t) == Some((s, t)),
{
    reveal_strlit("\"");
    assert(json_string(s) + t =~= "\""@ + (escaped(s) + seq!['"'] + t));
    lemma_strip("\""@, escaped(s) + seq!['"'] + t);
    lemma_decode_body(s, t);
}

proof fn lemma_decode_record(e: (String, UnitInfo), t: Seq<char>)
    requires
        t.len() > 0,
        !is_digit(t[0]),
    ensures
        decode_record(entry_record(e) + t) == Some((record_of(e), t)),
{
    reveal(decode_record);
    let info = e.1;
    let l1 = "{\"unit\":"@;
    let l2 = ",\"state\":"@;
    let l3 = ",\"sub_state\":"@;
    let l4 = ",\"elapsed_seconds\":"@;
    let l5 = "}"@;
    let u = e.0@;
    let sn = state_name(info.state.state);
    let ss = info.state.sub_state@;
    let n = info.time_since_state_change as nat;
    let x8 = l5 + t;
    let x7 = decimal(n) + x8;
    let x6 = l4 + x7;
    let x5 = json_string(ss) + x6;
    let x4 = l3 + x5;
    let x3 = json_string(sn) + x4;
    let x2 = l2 + x3;
    let x1 = json_string(u) + x2;
    assert(entry_record(e) + t =~= l1 + x1);
    lemma_strip(l1, x1);
    lemma_decode_string(u, x2);
    lemma_strip(l2, x3);
    lemma_decode_string(sn, x4);
    lemma_strip(l3, x5);
    lemma_decode_string(ss, x6);
    lemma_strip(l4, x7);
    lemma_decimal(n);
    reveal_strlit("}");
    lemma_digit_run(decimal(n), x8);
    assert(x7.subrange(0, decimal(n).len() as int) =~= decimal(n));
    assert(x7.skip(decimal(n).len() as int) =~= x8);
    lemma_strip(l5, t);
    crate::unit::lemma_state_name_injective(info.state.state, choose|st: ActiveState| state_name(st) == sn);
}

/// Objects each preceded by a comma, at the front of `x`, decoded, and what
/// follows them; `fuel` bounds how many are read.
pub open spec fn decode_more(x: Seq<char>, fuel: nat) -> Option<(Seq<Record>, Seq<char>)>
    decreases fuel,
{
    if fuel == 0 {
        None
    } else {
        match strip(x, ","@) {
            None => Some((Seq::empty(), x)),
            Some(y) => match decode_record(y) {
                None => None,
                Some((r, z)) => match decode_more(z, (fuel - 1) as nat) {
                    None => None,
                    Some((rs, w)) => Some((seq![r] + rs, w)),
                },
            },
        }
    }
}

/// Reads back the JSON form of a result set: the records, in order, or
/// nothing where `text` is not of that form.
pub open spec fn decode_report(text: Seq<char>) -> Option<Seq<Record>> {
    match strip(text, "[]"@) {
        Some(rest) => if rest.len() == 0 { Some(Seq::empty()) } else { None },
        None => match strip(text, "["@) {
            None => None,
            Some(x) => match decode_record(x) {
                None => None,
                Some((r, y)) => match decode_more(y, y.len()) {
                    Some((rs, z)) => if z == "]"@ { Some(seq![r] + rs) } else { None },
                    None => None,
                },
            },
        },
    }
}

proof fn lemma_decode_more(s: Seq<(String, UnitInfo)>, fuel: nat)
    requires
        fuel > s.len(),
    ensures
        decode_more(json_more(s) + "]"@, fuel) == Some((s.map_values(|e: (String, UnitInfo)| record_of(e)), "]"@)),
    decreases s.len(),
{
    reveal_strlit(",");
    reveal_strlit("]");
    if s.len() == 0 {
        assert(json_more(s) + "]"@ =~= "]"@);
        assert(("]"@).subrange(0, 1)[0] != (","@)[0]);
        assert(strip("]"@, ","@) is None);
        assert(s.map_values(|e: (String, UnitInfo)| record_of(e)) =~= Seq::<Record>::empty());
    } else {
        let r = s.drop_first();
        let y = entry_record(s[0]) + (json_more(r) + "]"@);
        assert(json_more(s) + "]"@ =~= ","@ + y);
        lemma_strip(","@, y);
        lemma_json_more_len(r);
        assert(strip(json_more(s) + "]"@, ","@) == Some(y));
        assert((json_more(r) + "]"@).len() > 0);
        if r.len() == 0 {
            assert(json_more(r) + "]"@ =~= "]"@);
        } else {
            assert((json_more(r) + "]"@)[0] == ',');
        }
        lemma_decode_record(s[0], json_more(r) + "]"@);
        lemma_decode_more(r, (fuel - 1) as nat);
        assert(decode_record(y) == Some((record_of(s[0]), json_more(r) + "]"@)));
        assert(s.map_values(|e: (String, UnitInfo)| record_of(e)) =~= seq![record_of(s[0])] + r.map_values(|e: (String, UnitInfo)| record_of(e)));
    }
}

proof fn lemma_json_more_len(s: Seq<(String, UnitInfo)>)
    ensures
        json_more(s).len() >= s.len(),
        s.len() > 0 ==> json_more(s)[0] == ',',
    decreases s.len(),
{
    reveal_strlit(",");
    if s.len() > 0 {
        lemma_json_more_len(s.drop_first());
    }
}

/// The JSON form reads back as the records of the result set: each unit's
/// identifier, state, sub-state and elapsed seconds, in order.
pub proof fn lemma_json_round_trip(data: ResultSet)
    ensures
        decode_report("["@ + json_records(data.entry_seq()) + "]"@)
            == Some(data.entry_seq().map_values(|e: (String, UnitInfo)| record_of(e))),
{
    let s = data.entry_seq();
    reveal_strlit("[");
    reveal_strlit("]");
    reveal_strlit("[]");
    reveal_strlit("{\"unit\":");
    let text = "["@ + json_records(s) + "]"@;
    if s.len() == 0 {
        assert(text =~= "[]"@ + Seq::<char>::empty());
        lemma_strip("[]"@, Seq::<char>::empty());
        assert(s.map_values(|e: (String, UnitInfo)| record_of(e)) =~= Seq::<Record>::empty());
    } else {
        let r = s.drop_first();
        let tail = json_more(r) + "]"@;
        assert(text =~= "["@ + (entry_record(s[0]) + tail));
        assert(text[1] == '{');
        assert(text.subrange(0, 2)[1] != "[]"@[1]);
        assert(strip(text, "[]"@) is None);
        lemma_strip("["@, entry_record(s[0]) + tail);
        lemma_json_more_len(r);
        if r.len() == 0 {
            assert(tail =~= "]"@);
        }
        assert(tail.len() > 0 && !is_digit(tail[0]));
        lemma_decode_record(s[0], tail);
        lemma_decode_more(r, tail.len());
        assert(s.map_values(|e: (String, UnitInfo)| record_of(e)) =~= seq![record_of(s[0])] + r.map_values(|e: (String, UnitInfo)| record_of(e)));
    }
}

} // verus!
