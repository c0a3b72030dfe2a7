//! Rendering process records as a JSON array, character by character:
//! decimal numerals for the integer members, an escaped string literal
//! for the name, and comma-joined objects between brackets.

use vstd::prelude::*;
use vstd::string::StrSliceExecFns;
use vstd::string::StringExecFns;
use crate::pid::{all_digits, is_digit_char};
use crate::records::{record_models, ProcessRecord, RecordModel};

verus! {

/// The character for the hexadecimal digit `d`, lower case.
pub open spec fn hex_char(d: int) -> char {
    if d == 0 {
        '0'
    } else if d == 1 {
        '1'
    } else if d == 2 {
        '2'
    } else if d == 3 {
        '3'
    } else if d == 4 {
        '4'
    } else if d == 5 {
        '5'
    } else if d == 6 {
        '6'
    } else if d == 7 {
        '7'
    } else if d == 8 {
        '8'
    } else if d == 9 {
        '9'
    } else if d == 10 {
        'a'
    } else if d == 11 {
        'b'
    } else if d == 12 {
        'c'
    } else if d == 13 {
        'd'
    } else if d == 14 {
        'e'
    } else {
        'f'
    }
}

/// The decimal numeral for a non-negative `n`, most significant digit
/// first, without leading zeros (`0` itself rendered as `"0"`).
pub open spec fn dec_chars(n: int) -> Seq<char>
    recommends
        n >= 0,
    decreases n,
{
    if n < 10 {
        seq![hex_char(n)]
    } else {
        dec_chars(n / 10).push(hex_char(n % 10))
    }
}

/// How one character of a name appears inside a JSON string literal:
/// itself, unless it is a quote, a backslash or a control character,
/// which are escaped.
pub open spec fn escape_char_seq(c: char) -> Seq<char> {
    if c == '"' {
        seq!['\\', '"']
    } else if c == '\\' {
        seq!['\\', '\\']
    } else if (c as int) < 0x20 {
        seq!['\\', 'u', '0', '0', hex_char(c as int / 16), hex_char(c as int % 16)]
    } else {
        seq![c]
    }
}

/// The body of the JSON string literal for `s`: each character escaped
/// as `escape_char_seq` says.
pub open spec fn escape_seq(s: Seq<char>) -> Seq<char>
    decreases s.len(),
{
    if s.len() == 0 {
        Seq::empty()
    } else {
        escape_seq(s.drop_last()) + escape_char_seq(s.last())
    }
}

/// The JSON object for one record.
pub open spec fn json_record_chars(r: RecordModel) -> Seq<char> {
    "{\"pid\":"@ + dec_chars(r.pid) + ",\"name\":\""@ + escape_seq(r.name) + "\",\"ram_usage\":"@
        + dec_chars(r.ram_usage) + "}"@
}

/// `parts` joined with comma separators.
pub open spec fn joined_with_commas(parts: Seq<Seq<char>>) -> Seq<char>
    decreases parts.len(),
{
    if parts.len() == 0 {
        Seq::empty()
    } else if parts.len() == 1 {
        parts[0]
    } else {
        joined_with_commas(parts.drop_last()) + ","@ + parts.last()
    }
}

/// The JSON array for a sequence of records.
pub open spec fn json_list_chars(rs: Seq<RecordModel>) -> Seq<char> {
    "["@ + joined_with_commas(rs.map_values(|r: RecordModel| json_record_chars(r))) + "]"@
}

/// Whether `s` is a well-formed JSON number token for a non-negative
/// integer: non-empty, all digits, no leading zero.
pub open spec fn is_json_number_chars(s: Seq<char>) -> bool {
    s.len() > 0 && all_digits(s) && (s[0] == '0' ==> s.len() == 1)
}

/// Whether `c` is a lower-case hexadecimal digit.
pub open spec fn is_hex_lower(c: char) -> bool {
    is_digit_char(c) || (0x61 <= c as int && c as int <= 0x66)
}

/// Whether `c` may stand unescaped inside a JSON string literal.
pub open spec fn is_plain_string_char(c: char) -> bool {
    c != '"' && c != '\\' && c as int >= 0x20
}

/// Whether `s` is a well-formed JSON string-literal body: a sequence of
/// plain characters and complete escapes, with no unescaped quote,
/// backslash or control character.
pub open spec fn is_string_body_chars(s: Seq<char>) -> bool
    decreases s.len(),
{
    if s.len() == 0 {
        true
    } else if s[0] == '\\' {
        (s.len() >= 2 && (s[1] == '"' || s[1] == '\\') && is_string_body_chars(
            s.subrange(2, s.len() as int),
        )) || (s.len() >= 6 && s[1] == 'u' && is_hex_lower(s[2]) && is_hex_lower(s[3])
            && is_hex_lower(s[4]) && is_hex_lower(s[5]) && is_string_body_chars(
            s.subrange(6, s.len() as int),
        ))
    } else {
        is_plain_string_char(s[0]) && is_string_body_chars(s.drop_first())
    }
}

/// Whether `s` is a well-formed JSON object with the three members a
/// process record carries: a number, a string literal, and a number.
pub open spec fn is_json_object_chars(s: Seq<char>) -> bool {
    exists|pid: Seq<char>, name: Seq<char>, ram: Seq<char>|
        {
            &&& s == "{\"pid\":"@ + pid + ",\"name\":\""@ + name + "\",\"ram_usage\":"@ + ram
                + "}"@
            &&& #[trigger] is_json_number_chars(pid)
            &&& #[trigger] is_string_body_chars(name)
            &&& #[trigger] is_json_number_chars(ram)
        }
}

/// Whether `s` is a well-formed JSON array of such objects, joined with
/// commas between brackets.
pub open spec fn is_json_array_chars(s: Seq<char>) -> bool {
    exists|parts: Seq<Seq<char>>|
        {
            &&& s == "["@ + #[trigger] joined_with_commas(parts) + "]"@
            &&& forall|k: int| 0 <= k < parts.len() ==> is_json_object_chars(#[trigger] parts[k])
        }
}

proof fn lemma_dec_chars_number(n: int)
    requires
        n >= 0,
    ensures
        is_json_number_chars(dec_chars(n)),
        dec_chars(n)[0] == '0' ==> n == 0,
    decreases n,
{
    if n < 10 {
        assert(dec_chars(n) == seq![hex_char(n)]);
    } else {
        lemma_dec_chars_number(n / 10);
        let prefix = dec_chars(n / 10);
        let s = dec_chars(n);
        assert(s == prefix.push(hex_char(n % 10)));
        assert(s[0] == prefix[0]);
        assert(forall|k: int| 0 <= k < s.len() ==> is_digit_char(s[k])) by {
            assert(forall|k: int| 0 <= k < prefix.len() ==> s[k] == prefix[k]);
            assert(s[s.len() - 1] == hex_char(n % 10));
        }
        if prefix[0] == '0' {
            assert(n / 10 == 0);
        }
    }
}

proof fn lemma_string_body_concat(a: Seq<char>, b: Seq<char>)
    requires
        is_string_body_chars(a),
        is_string_body_chars(b),
    ensures
        is_string_body_chars(a + b),
    decreases a.len(),
{
    let s = a + b;
    if a.len() == 0 {
        assert(s =~= b);
    } else if a[0] == '\\' {
        if a.len() >= 2 && (a[1] == '"' || a[1] == '\\') && is_string_body_chars(
            a.subrange(2, a.len() as int),
        ) {
            lemma_string_body_concat(a.subrange(2, a.len() as int), b);
            assert(s.subrange(2, s.len() as int) =~= a.subrange(2, a.len() as int) + b);
        } else {
            lemma_string_body_concat(a.subrange(6, a.len() as int), b);
            assert(s.subrange(6, s.len() as int) =~= a.subrange(6, a.len() as int) + b);
        }
    } else {
        lemma_string_body_concat(a.drop_first(), b);
        assert(s.drop_first() =~= a.drop_first() + b);
    }
}

proof fn lemma_escape_char_body(c: char)
    ensures
        is_string_body_chars(escape_char_seq(c)),
{
    let s = escape_char_seq(c);
    if c == '"' || c == '\\' {
        assert(s.len() == 2);
        assert(s[0] == '\\');
        assert(s[1] == '"' || s[1] == '\\');
        assert(s.subrange(2, 2) =~= Seq::<char>::empty());
        assert(is_string_body_chars(s.subrange(2, s.len() as int)));
        assert(is_string_body_chars(s));
    } else if (c as int) < 0x20 {
        assert(s.len() == 6);
        assert(s[0] == '\\' && s[1] == 'u');
        assert(s.subrange(6, 6) =~= Seq::<char>::empty());
        assert(is_string_body_chars(s.subrange(6, s.len() as int)));
        assert(is_hex_lower('0'));
        assert(is_hex_lower(hex_char(c as int / 16)));
        assert(is_hex_lower(hex_char(c as int % 16)));
        assert(is_string_body_chars(s));
    } else {
        assert(is_plain_string_char(s[0]));
        assert(s.drop_first() =~= Seq::<char>::empty());
        assert(is_string_body_chars(s.drop_first()));
        assert(is_string_body_chars(s));
    }
}

proof fn lemma_escape_seq_body(s: Seq<char>)
    ensures
        is_string_body_chars(escape_seq(s)),
    decreases s.len(),
{
    if s.len() > 0 {
        lemma_escape_seq_body(s.drop_last());
        lemma_escape_char_body(s.last());
        lemma_string_body_concat(escape_seq(s.drop_last()), escape_char_seq(s.last()));
    }
}

/// The JSON object rendered for a record with a non-negative identifier
/// and memory figure is well formed.
pub proof fn lemma_json_record_valid(r: RecordModel)
    requires
        r.pid >= 0,
        r.ram_usage >= 0,
    ensures
        is_json_object_chars(json_record_chars(r)),
{
    lemma_dec_chars_number(r.pid);
    lemma_dec_chars_number(r.ram_usage);
    lemma_escape_seq_body(r.name);
    assert(json_record_chars(r) == "{\"pid\":"@ + dec_chars(r.pid) + ",\"name\":\""@ + escape_seq(
        r.name,
    ) + "\",\"ram_usage\":"@ + dec_chars(r.ram_usage) + "}"@);
}

/// The rendered output is always syntactically valid JSON: for every
/// sequence of records with non-negative identifiers and memory figures,
/// the rendered text is a well-formed JSON array.
pub proof fn lemma_json_list_valid(rs: Seq<RecordModel>)
    requires
        forall|k: int|
            0 <= k < rs.len() ==> (#[trigger] rs[k]).pid >= 0 && rs[k].ram_usage >= 0,
    ensures
        is_json_array_chars(json_list_chars(rs)),
{
    let parts = rs.map_values(|r: RecordModel| json_record_chars(r));
    assert forall|k: int| 0 <= k < parts.len() implies is_json_object_chars(
        #[trigger] parts[k],
    ) by {
        lemma_json_record_valid(rs[k]);
    }
    assert(json_list_chars(rs) == "["@ + joined_with_commas(parts) + "]"@);
}

/// Rendering no records gives the literal text `"[]"`.
pub proof fn lemma_json_list_empty()
    ensures
        json_list_chars(Seq::<RecordModel>::empty()) == "[]"@,
{
    reveal_strlit("[");
    reveal_strlit("]");
    reveal_strlit("[]");
    let parts = Seq::<RecordModel>::empty().map_values(|r: RecordModel| json_record_chars(r));
    assert(parts =~= Seq::<Seq<char>>::empty());
    assert(json_list_chars(Seq::<RecordModel>::empty()) =~= "[]"@);
}

/// Relies on `String::push`: it appends exactly the one character.
#[verifier::external_body]
fn push_char(s: &mut String, c: char)
    ensures
        final(s)@ == old(s)@.push(c),
{
    s.push(c);
}

/// The character for the hexadecimal digit `d`, lower case.
fn hex_char_of(d: u32) -> (c: char)
    requires
        d < 16,
    ensures
        c == hex_char(d as int),
{
    if d == 0 {
        '0'
    } else if d == 1 {
        '1'
    } else if d == 2 {
        '2'
    } else if d == 3 {
        '3'
    } else if d == 4 {
        '4'
    } else if d == 5 {
        '5'
    } else if d == 6 {
        '6'
    } else if d == 7 {
        '7'
    } else if d == 8 {
        '8'
    } else if d == 9 {
        '9'
    } else if d == 10 {
        'a'
    } else if d == 11 {
        'b'
    } else if d == 12 {
        'c'
    } else if d == 13 {
        'd'
    } else if d == 14 {
        'e'
    } else {
        'f'
    }
}

/// Appends the decimal numeral for `n` to `out`.
fn push_dec_u64(out: &mut String, n: u64)
    ensures
        final(out)@ == old(out)@ + dec_chars(n as int),
    decreases n,
{
    if n < 10 {
        let c = hex_char_of(n as u32);
        push_char(out, c);
        proof {
            assert(final(out)@ =~= old(out)@ + dec_chars(n as int));
        }
    } else {
        push_dec_u64(out, n / 10);
        let c = hex_char_of((n % 10) as u32);
        push_char(out, c);
        proof {
            assert(final(out)@ =~= old(out)@ + dec_chars(n as int));
        }
    }
}

/// Appends the escaped string-literal body for `s` to `out`.
fn push_escaped(out: &mut String, s: &str)
    ensures
        final(out)@ == old(out)@ + escape_seq(s@),
{
    let n = s.unicode_len();
    let mut i: usize = 0;
    while i < n
        invariant
            0 <= i <= n,
            n == s@.len(),
            out@ == old(out)@ + escape_seq(s@.take(i as int)),
        decreases n - i,
    {
        let ghost before = out@;
        let c = s.get_char(i);
        let cv = c as u32;
        if c == '"' {
            push_char(out, '\\');
            push_char(out, '"');
        } else if c == '\\' {
            push_char(out, '\\');
            push_char(out, '\\');
        } else if cv < 0x20 {
            push_char(out, '\\');
            push_char(out, 'u');
            push_char(out, '0');
            push_char(out, '0');
            push_char(out, hex_char_of(cv / 16));
            push_char(out, hex_char_of(cv % 16));
        } else {
            push_char(out, c);
        }
        proof {
            assert(out@ =~= before + escape_char_seq(s@[i as int]));
            assert(s@.take(i + 1 as int).drop_last() =~= s@.take(i as int));
            assert(s@.take(i + 1 as int).last() == s@[i as int]);
            assert(out@ =~= old(out)@ + escape_seq(s@.take(i + 1 as int)));
        }
        i += 1;
    }
    proof {
        assert(s@.take(n as int) =~= s@);
    }
}

/// Appends the JSON object for `rec` to `out`.
fn push_json_record(out: &mut String, rec: &ProcessRecord)
    requires
        rec.pid >= 0,
        rec.ram_usage >= 0,
    ensures
        final(out)@ == old(out)@ + json_record_chars(rec@),
{
    out.append("{\"pid\":");
    push_dec_u64(out, rec.pid as u64);
    out.append(",\"name\":\"");
    push_escaped(out, rec.name.as_str());
    out.append("\",\"ram_usage\":");
    push_dec_u64(out, rec.ram_usage as u64);
    out.append("}");
    proof {
        assert(final(out)@ =~= old(out)@ + json_record_chars(rec@));
    }
}

/// Renders `records` as a JSON array, one object per record, in order.
pub fn records_to_json(records: &Vec<ProcessRecord>) -> (r: String)
    requires
        forall|k: int|
            0 <= k < records@.len() ==> (#[trigger] records@[k]).pid >= 0
                && records@[k].ram_usage >= 0,
    ensures
        r@ == json_list_chars(record_models(records@)),
        is_json_array_chars(r@),
{
    proof {
        assert forall|k: int| 0 <= k < record_models(records@).len() implies (
        #[trigger] record_models(records@)[k]).pid >= 0 && record_models(records@)[k].ram_usage
            >= 0 by {
            assert(record_models(records@)[k] == records@[k]@);
        }
        lemma_json_list_valid(record_models(records@));
    }
    let ghost parts = record_models(records@).map_values(|m: RecordModel| json_record_chars(m));
    let mut out = String::new();
    out.append("[");
    let mut i: usize = 0;
    while i < records.len()
        invariant
            0 <= i <= records@.len(),
            parts == record_models(records@).map_values(
                |m: RecordModel| json_record_chars(m),
            ),
            parts.len() == records@.len(),
            out@ == "["@ + joined_with_commas(parts.take(i as int)),
            forall|k: int|
                0 <= k < records@.len() ==> (#[trigger] records@[k]).pid >= 0
                    && records@[k].ram_usage >= 0,
        decreases records@.len() - i,
    {
        let ghost before = out@;
        if i > 0 {
            out.append(",");
        }
        push_json_record(&mut out, &records[i]);
        proof {
            assert(parts[i as int] == json_record_chars(records@[i as int]@));
            assert(parts.take(i + 1 as int).drop_last() =~= parts.take(i as int));
            assert(parts.take(i + 1 as int).last() == parts[i as int]);
            if i == 0 {
                assert(joined_with_commas(parts.take(1)) == parts[0]);
                assert(out@ =~= "["@ + joined_with_commas(parts.take(i + 1 as int)));
            } else {
                assert(joined_with_commas(parts.take(i + 1 as int)) == joined_with_commas(
                    parts.take(i as int),
                ) + ","@ + parts[i as int]);
                assert(out@ =~= "["@ + joined_with_commas(parts.take(i + 1 as int)));
            }
        }
        i += 1;
    }
    out.append("]");
    proof {
        assert(parts.take(records@.len() as int) =~= parts);
        assert(out@ =~= json_list_chars(record_models(records@)));
    }
    out
}

} // verus!
