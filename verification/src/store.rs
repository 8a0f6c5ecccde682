//! The persisted form of a record list, and its codec.
//!
//! A list is stored as text: each record opens with a `[[entry]]` line
//! and carries one `key = "value"` line per field, in a fixed key
//! order. Values are escaped so that a line break, a quote or a
//! backslash in a field cannot break the framing; parsing back what
//! was encoded recovers the records exactly, field for field. Reading
//! and writing the store file is the surrounding application's work;
//! it hands the text in and out unchanged.

use vstd::prelude::*;

use crate::cluster::Cluster;
use crate::entry::Entry;
use crate::spawner::Spawner;
use crate::toml_list::StoreError;
use crate::toml_list::TomlList;

verus! {

/// How one character of a field value is stored.
pub open spec fn esc_char(c: char) -> Seq<char> {
    if c == '\\' {
        seq!['\\', '\\']
    } else if c == '"' {
        seq!['\\', '"']
    } else if c == '\n' {
        seq!['\\', 'n']
    } else if c == '\r' {
        seq!['\\', 'r']
    } else if c == '\t' {
        seq!['\\', 't']
    } else {
        seq![c]
    }
}

/// A field value as stored, escaped character by character.
pub open spec fn esc_str(s: Seq<char>) -> Seq<char>
    decreases s.len(),
{
    if s.len() == 0 {
        Seq::<char>::empty()
    } else {
        esc_char(s[0]) + esc_str(s.skip(1))
    }
}

/// The character an escape code stands for.
pub open spec fn unesc_code(c: char) -> Option<char> {
    if c == '\\' {
        Option::Some('\\')
    } else if c == '"' {
        Option::Some('"')
    } else if c == 'n' {
        Option::Some('\n')
    } else if c == 'r' {
        Option::Some('\r')
    } else if c == 't' {
        Option::Some('\t')
    } else {
        Option::None
    }
}

/// Read an escaped value up to its closing quote: the value and the
/// text after the quote, or nothing when the text is not a stored
/// value.
pub open spec fn spec_unesc(s: Seq<char>) -> Option<(Seq<char>, Seq<char>)>
    decreases s.len(),
{
    if s.len() == 0 {
        Option::None
    } else if s[0] == '"' {
        Option::Some((Seq::<char>::empty(), s.skip(1)))
    } else if s[0] == '\\' {
        if s.len() < 2 {
            Option::None
        } else {
            match unesc_code(s[1]) {
                Option::None => Option::None,
                Option::Some(c) => match spec_unesc(s.skip(2)) {
                    Option::None => Option::None,
                    Option::Some(vr) => Option::Some((seq![c] + vr.0, vr.1)),
                },
            }
        }
    } else if s[0] == '\n' {
        Option::None
    } else {
        match spec_unesc(s.skip(1)) {
            Option::None => Option::None,
            Option::Some(vr) => Option::Some((seq![s[0]] + vr.0, vr.1)),
        }
    }
}

/// The text after `p`, when `s` starts with `p`.
pub open spec fn strip_prefix(p: Seq<char>, s: Seq<char>) -> Option<Seq<char>> {
    if p.len() <= s.len() && s.take(p.len() as int) == p {
        Option::Some(s.skip(p.len() as int))
    } else {
        Option::None
    }
}

/// One stored field line.
pub open spec fn encode_field(key: Seq<char>, v: Seq<char>) -> Seq<char> {
    key + " = \""@ + esc_str(v) + "\""@ + "\n"@
}

/// The stored field lines of one record.
pub open spec fn encode_fields(keys: Seq<Seq<char>>, vals: Seq<Seq<char>>) -> Seq<char>
    recommends
        vals.len() == keys.len(),
    decreases keys.len(),
{
    if keys.len() == 0 {
        Seq::<char>::empty()
    } else {
        encode_field(keys[0], vals[0]) + encode_fields(keys.skip(1), vals.skip(1))
    }
}

/// One stored record.
pub open spec fn encode_record(keys: Seq<Seq<char>>, vals: Seq<Seq<char>>) -> Seq<char> {
    "[[entry]]\n"@ + encode_fields(keys, vals)
}

/// A whole stored list.
pub open spec fn spec_encode_list(keys: Seq<Seq<char>>, recs: Seq<Seq<Seq<char>>>) -> Seq<char>
    decreases recs.len(),
{
    if recs.len() == 0 {
        Seq::<char>::empty()
    } else {
        encode_record(keys, recs[0]) + spec_encode_list(keys, recs.skip(1))
    }
}

/// Read one stored field line for `key`.
pub open spec fn parse_field(key: Seq<char>, s: Seq<char>) -> Option<(Seq<char>, Seq<char>)> {
    match strip_prefix(key + " = \""@, s) {
        Option::None => Option::None,
        Option::Some(s1) => match spec_unesc(s1) {
            Option::None => Option::None,
            Option::Some(vr) => match strip_prefix("\n"@, vr.1) {
                Option::None => Option::None,
                Option::Some(s3) => Option::Some((vr.0, s3)),
            },
        },
    }
}

/// Read one record's field lines, in key order.
pub open spec fn parse_fields(keys: Seq<Seq<char>>, s: Seq<char>) -> Option<
    (Seq<Seq<char>>, Seq<char>),
>
    decreases keys.len(),
{
    if keys.len() == 0 {
        Option::Some((Seq::<Seq<char>>::empty(), s))
    } else {
        match parse_field(keys[0], s) {
            Option::None => Option::None,
            Option::Some(vr) => match parse_fields(keys.skip(1), vr.1) {
                Option::None => Option::None,
                Option::Some(vsr) => Option::Some((seq![vr.0] + vsr.0, vsr.1)),
            },
        }
    }
}

/// Reading a stored value consumes at least its closing quote.
pub proof fn lemma_unesc_shrinks(s: Seq<char>)
    ensures
        spec_unesc(s) matches Option::Some(vr) ==> vr.1.len() < s.len(),
    decreases s.len(),
{
    if s.len() > 0 && s[0] != '"' && s[0] != '\n' {
        if s[0] == '\\' {
            if s.len() >= 2 {
                lemma_unesc_shrinks(s.skip(2));
            }
        } else {
            lemma_unesc_shrinks(s.skip(1));
        }
    }
}

/// Reading a record's fields never lengthens the remaining text.
pub proof fn lemma_parse_fields_shrinks(keys: Seq<Seq<char>>, s: Seq<char>)
    ensures
        parse_fields(keys, s) matches Option::Some(vsr) ==> vsr.1.len() <= s.len(),
    decreases keys.len(),
{
    if keys.len() > 0 {
        match parse_field(keys[0], s) {
            Option::None => {},
            Option::Some(vr) => {
                match strip_prefix(keys[0] + " = \""@, s) {
                    Option::None => {},
                    Option::Some(s1) => {
                        lemma_unesc_shrinks(s1);
                    },
                }
                lemma_parse_fields_shrinks(keys.skip(1), vr.1);
            },
        }
    }
}

/// A whole stored list read back: the records, or nothing when the
/// text is not a list this codec wrote.
pub open spec fn spec_parse_list(keys: Seq<Seq<char>>, s: Seq<char>) -> Option<
    Seq<Seq<Seq<char>>>,
>
    decreases s.len(),
    via spec_parse_list_decreases
{
    if s.len() == 0 {
        Option::Some(Seq::<Seq<Seq<char>>>::empty())
    } else {
        match strip_prefix("[[entry]]\n"@, s) {
            Option::None => Option::None,
            Option::Some(s1) => match parse_fields(keys, s1) {
                Option::None => Option::None,
                Option::Some(vsr) => match spec_parse_list(keys, vsr.1) {
                    Option::None => Option::None,
                    Option::Some(recs) => Option::Some(seq![vsr.0] + recs),
                },
            },
        }
    }
}

#[via_fn]
proof fn spec_parse_list_decreases(keys: Seq<Seq<char>>, s: Seq<char>) {
    reveal_strlit("[[entry]]\n");
    if s.len() > 0 {
        match strip_prefix("[[entry]]\n"@, s) {
            Option::None => {},
            Option::Some(s1) => {
                lemma_parse_fields_shrinks(keys, s1);
            },
        }
    }
}

/// Stripping a prefix off a text built from it recovers the tail.
pub proof fn lemma_strip_prefix_concat(p: Seq<char>, t: Seq<char>)
    ensures
        strip_prefix(p, p + t) == Option::Some(t),
{
    assert((p + t).take(p.len() as int) =~= p);
    assert((p + t).skip(p.len() as int) =~= t);
}

/// Reading back an escaped value recovers it and the text after the
/// closing quote.
pub proof fn lemma_unesc_esc(v: Seq<char>, rest: Seq<char>)
    ensures
        spec_unesc(esc_str(v) + seq!['"'] + rest) == Option::Some((v, rest)),
    decreases v.len(),
{
    let s = esc_str(v) + seq!['"'] + rest;
    if v.len() == 0 {
        assert(s =~= seq!['"'] + rest);
        assert(s[0] == '"');
        assert(s.skip(1) =~= rest);
        assert(spec_unesc(s) == Option::Some((Seq::<char>::empty(), rest)));
        assert(Seq::<char>::empty() =~= v);
    } else {
        let c = v[0];
        lemma_unesc_esc(v.skip(1), rest);
        if c == '\\' || c == '"' || c == '\n' || c == '\r' || c == '\t' {
            assert(esc_char(c).len() == 2);
            assert(esc_char(c)[0] == '\\');
            assert(s =~= seq!['\\', esc_char(c)[1]] + (esc_str(v.skip(1)) + seq!['"'] + rest));
            assert(s[0] == '\\');
            assert(s.len() >= 2);
            assert(s[1] == esc_char(c)[1]);
            assert(unesc_code(esc_char(c)[1]) == Option::Some(c));
            assert(s.skip(2) =~= esc_str(v.skip(1)) + seq!['"'] + rest);
            assert(spec_unesc(s) == Option::Some((seq![c] + v.skip(1), rest)));
            assert(seq![c] + v.skip(1) =~= v);
        } else {
            assert(esc_char(c) =~= seq![c]);
            assert(s =~= seq![c] + (esc_str(v.skip(1)) + seq!['"'] + rest));
            assert(s[0] == c);
            assert(c != '"' && c != '\\' && c != '\n');
            assert(s.skip(1) =~= esc_str(v.skip(1)) + seq!['"'] + rest);
            assert(spec_unesc(s) == Option::Some((seq![c] + v.skip(1), rest)));
            assert(seq![c] + v.skip(1) =~= v);
        }
    }
}

/// Reading back a stored field line recovers its value and the text
/// after the line.
pub proof fn lemma_parse_field_encode(key: Seq<char>, v: Seq<char>, rest: Seq<char>)
    ensures
        parse_field(key, encode_field(key, v) + rest) == Option::Some((v, rest)),
{
    reveal_strlit("\"");
    reveal_strlit("\n");
    let s = encode_field(key, v) + rest;
    let p = key + " = \""@;
    assert(s =~= p + (esc_str(v) + seq!['"'] + (seq!['\n'] + rest))) by {
        assert("\""@ =~= seq!['"']);
        assert("\n"@ =~= seq!['\n']);
    }
    lemma_strip_prefix_concat(p, esc_str(v) + seq!['"'] + (seq!['\n'] + rest));
    lemma_unesc_esc(v, seq!['\n'] + rest);
    assert("\n"@ =~= seq!['\n']);
    lemma_strip_prefix_concat("\n"@, rest);
    assert(seq!['\n'] + rest =~= "\n"@ + rest);
}

/// Reading back one record's stored field lines recovers its values.
pub proof fn lemma_parse_fields_encode(keys: Seq<Seq<char>>, vals: Seq<Seq<char>>, rest: Seq<
    char,
>)
    requires
        vals.len() == keys.len(),
    ensures
        parse_fields(keys, encode_fields(keys, vals) + rest) == Option::Some((vals, rest)),
    decreases keys.len(),
{
    let s = encode_fields(keys, vals) + rest;
    if keys.len() == 0 {
        assert(s =~= rest);
        assert(Seq::<Seq<char>>::empty() =~= vals);
    } else {
        assert(s =~= encode_field(keys[0], vals[0]) + (encode_fields(
            keys.skip(1),
            vals.skip(1),
        ) + rest));
        lemma_parse_field_encode(keys[0], vals[0], encode_fields(keys.skip(1), vals.skip(1))
            + rest);
        lemma_parse_fields_encode(keys.skip(1), vals.skip(1), rest);
        assert(seq![vals[0]] + vals.skip(1) =~= vals);
    }
}

/// Saving a record list and loading it back yields the same records,
/// field for field and in the same order, whatever the keys and the
/// field values hold.
pub proof fn lemma_store_round_trip(keys: Seq<Seq<char>>, recs: Seq<Seq<Seq<char>>>)
    requires
        forall|i: int| 0 <= i < recs.len() ==> (#[trigger] recs[i]).len() == keys.len(),
    ensures
        spec_parse_list(keys, spec_encode_list(keys, recs)) == Option::Some(recs),
    decreases recs.len(),
{
    reveal_strlit("[[entry]]\n");
    let s = spec_encode_list(keys, recs);
    if recs.len() == 0 {
        assert(s.len() == 0);
        assert(Seq::<Seq<Seq<char>>>::empty() =~= recs);
    } else {
        assert(s =~= "[[entry]]\n"@ + (encode_fields(keys, recs[0]) + spec_encode_list(
            keys,
            recs.skip(1),
        )));
        assert(s.len() > 0) by {
            assert("[[entry]]\n"@.len() == 10);
        }
        lemma_strip_prefix_concat(
            "[[entry]]\n"@,
            encode_fields(keys, recs[0]) + spec_encode_list(keys, recs.skip(1)),
        );
        lemma_parse_fields_encode(keys, recs[0], spec_encode_list(keys, recs.skip(1)));
        assert(forall|i: int|
            0 <= i < recs.skip(1).len() ==> (#[trigger] recs.skip(1)[i]).len() == keys.len());
        lemma_store_round_trip(keys, recs.skip(1));
        assert(seq![recs[0]] + recs.skip(1) =~= recs);
    }
}

/// Escaping grows value by value at the end.
proof fn lemma_esc_push(s: Seq<char>, c: char)
    ensures
        esc_str(s.push(c)) == esc_str(s) + esc_char(c),
    decreases s.len(),
{
    if s.len() == 0 {
        assert(s.push(c)[0] == c);
        assert(s.push(c).skip(1) =~= s);
        assert(esc_str(s.push(c)) =~= esc_str(s) + esc_char(c));
    } else {
        lemma_esc_push(s.skip(1), c);
        assert(s.push(c)[0] == s[0]);
        assert(s.push(c).skip(1) =~= s.skip(1).push(c));
        assert(esc_str(s.push(c)) =~= esc_str(s) + esc_char(c));
    }
}

proof fn lemma_esc_lits()
    ensures
        "\\\\"@ =~= seq!['\\', '\\'],
        "\\\""@ =~= seq!['\\', '"'],
        "\\n"@ =~= seq!['\\', 'n'],
        "\\r"@ =~= seq!['\\', 'r'],
        "\\t"@ =~= seq!['\\', 't'],
        "\\"@ =~= seq!['\\'],
        "\""@ =~= seq!['"'],
        "\n"@ =~= seq!['\n'],
        "\r"@ =~= seq!['\r'],
        "\t"@ =~= seq!['\t'],
{
    reveal_strlit("\\\\");
    reveal_strlit("\\\"");
    reveal_strlit("\\n");
    reveal_strlit("\\r");
    reveal_strlit("\\t");
    reveal_strlit("\\");
    reveal_strlit("\"");
    reveal_strlit("\n");
    reveal_strlit("\r");
    reveal_strlit("\t");
}

/// Escape a field value for storage.
pub fn escape_value(v: &str) -> (r: String)
    ensures
        r@ == esc_str(v@),
{
    let n = v.unicode_len();
    let mut out = String::new();
    let mut i: usize = 0;
    proof {
        assert(v@.take(0) =~= Seq::<char>::empty());
    }
    while i < n
        invariant
            n == v@.len(),
            i <= n,
            out@ == esc_str(v@.take(i as int)),
        decreases n - i,
    {
        let c = v.get_char(i);
        if c == '\\' {
            out.append("\\\\");
        } else if c == '"' {
            out.append("\\\"");
        } else if c == '\n' {
            out.append("\\n");
        } else if c == '\r' {
            out.append("\\r");
        } else if c == '\t' {
            out.append("\\t");
        } else {
            out.append(v.substring_char(i, i + 1));
        }
        proof {
            lemma_esc_lits();
            lemma_esc_push(v@.take(i as int), v@[i as int]);
            assert(v@.take(i as int).push(v@[i as int]) =~= v@.take(i + 1));
            assert(out@ =~= esc_str(v@.take(i + 1)));
        }
        i = i + 1;
    }
    proof {
        assert(v@.take(n as int) =~= v@);
    }
    out
}

/// Encoding grows field line by field line at the end.
proof fn lemma_encode_fields_push(
    keys: Seq<Seq<char>>,
    vals: Seq<Seq<char>>,
    key: Seq<char>,
    val: Seq<char>,
)
    requires
        vals.len() == keys.len(),
    ensures
        encode_fields(keys.push(key), vals.push(val)) == encode_fields(keys, vals)
            + encode_field(key, val),
    decreases keys.len(),
{
    if keys.len() == 0 {
        assert(keys.push(key)[0] == key);
        assert(vals.push(val)[0] == val);
        assert(keys.push(key).skip(1) =~= keys);
        assert(vals.push(val).skip(1) =~= vals);
        assert(encode_fields(keys.push(key), vals.push(val)) =~= encode_fields(keys, vals)
            + encode_field(key, val));
    } else {
        lemma_encode_fields_push(keys.skip(1), vals.skip(1), key, val);
        assert(keys.push(key)[0] == keys[0]);
        assert(vals.push(val)[0] == vals[0]);
        assert(keys.push(key).skip(1) =~= keys.skip(1).push(key));
        assert(vals.push(val).skip(1) =~= vals.skip(1).push(val));
        assert(encode_fields(keys.push(key), vals.push(val)) =~= encode_fields(keys, vals)
            + encode_field(key, val));
    }
}

/// Encoding grows record by record at the end.
proof fn lemma_encode_list_push(
    keys: Seq<Seq<char>>,
    recs: Seq<Seq<Seq<char>>>,
    rec: Seq<Seq<char>>,
)
    ensures
        spec_encode_list(keys, recs.push(rec)) == spec_encode_list(keys, recs) + encode_record(
            keys,
            rec,
        ),
    decreases recs.len(),
{
    if recs.len() == 0 {
        assert(recs.push(rec)[0] == rec);
        assert(recs.push(rec).skip(1) =~= recs);
        assert(spec_encode_list(keys, recs.push(rec)) =~= spec_encode_list(keys, recs)
            + encode_record(keys, rec));
    } else {
        lemma_encode_list_push(keys, recs.skip(1), rec);
        assert(recs.push(rec)[0] == recs[0]);
        assert(recs.push(rec).skip(1) =~= recs.skip(1).push(rec));
        assert(spec_encode_list(keys, recs.push(rec)) =~= spec_encode_list(keys, recs)
            + encode_record(keys, rec));
    }
}

/// The key views of a key list.
pub open spec fn view_of_keys(keys: Seq<String>) -> Seq<Seq<char>> {
    keys.map_values(|k: String| k@)
}

/// The field values of every record of a list.
pub open spec fn fields_of_list<T: Entry>(es: Seq<T>) -> Seq<Seq<Seq<char>>> {
    es.map_values(|e: T| e.spec_fields())
}

fn encode_one_record<T: Entry>(keys: &Vec<String>, e: &T) -> (r: String)
    requires
        keys@.len() == T::spec_field_count(),
    ensures
        r@ == encode_record(view_of_keys(keys@), e.spec_fields()),
{
    let vals = e.get_entry_values();
    let ghost keysv = view_of_keys(keys@);
    let ghost fieldsv = e.spec_fields();
    proof {
        e.lemma_fields_len();
        assert(keysv.take(0) =~= Seq::<Seq<char>>::empty());
        assert(fieldsv.take(0) =~= Seq::<Seq<char>>::empty());
    }
    let mut out = "[[entry]]\n".to_owned();
    let mut k: usize = 0;
    let n = keys.len();
    while k < n
        invariant
            n == keys@.len(),
            k <= n,
            keysv == view_of_keys(keys@),
            fieldsv == e.spec_fields(),
            fieldsv.len() == n,
            vals@.len() == n,
            forall|j: int| 0 <= j < n ==> #[trigger] vals@[j]@ == fieldsv[j],
            out@ == "[[entry]]\n"@ + encode_fields(keysv.take(k as int), fieldsv.take(k as int)),
        decreases n - k,
    {
        out.append(keys[k].as_str());
        out.append(" = \"");
        let escaped = escape_value(vals[k].as_str());
        out.append(escaped.as_str());
        out.append("\"");
        out.append("\n");
        proof {
            lemma_encode_fields_push(
                keysv.take(k as int),
                fieldsv.take(k as int),
                keysv[k as int],
                fieldsv[k as int],
            );
            assert(keysv.take(k as int).push(keysv[k as int]) =~= keysv.take(k + 1));
            assert(fieldsv.take(k as int).push(fieldsv[k as int]) =~= fieldsv.take(k + 1));
            assert(out@ =~= "[[entry]]\n"@ + encode_fields(keysv.take(k + 1), fieldsv.take(k + 1)));
        }
        k = k + 1;
    }
    proof {
        assert(keysv.take(n as int) =~= keysv);
        assert(fieldsv.take(n as int) =~= fieldsv);
    }
    out
}

/// Encode a record list for its store, record by record in list order.
pub fn encode_list<T: Entry>(keys: &Vec<String>, list: &TomlList<T>) -> (r: String)
    requires
        keys@.len() == T::spec_field_count(),
    ensures
        r@ == spec_encode_list(view_of_keys(keys@), fields_of_list(list.entry@)),
{
    let ghost keysv = view_of_keys(keys@);
    let ghost recsv = fields_of_list(list.entry@);
    let mut out = String::new();
    let mut i: usize = 0;
    let n = list.len();
    proof {
        assert(recsv.take(0) =~= Seq::<Seq<Seq<char>>>::empty());
    }
    while i < n
        invariant
            n == list.entry@.len(),
            i <= n,
            keys@.len() == T::spec_field_count(),
            keysv == view_of_keys(keys@),
            recsv == fields_of_list(list.entry@),
            out@ == spec_encode_list(keysv, recsv.take(i as int)),
        decreases n - i,
    {
        let e = match list.get(i) {
            Ok(e) => e,
            Err(_) => {
                proof {
                    assert(false);
                }
                return out;
            },
        };
        let one = encode_one_record(keys, e);
        out.append(one.as_str());
        proof {
            lemma_encode_list_push(keysv, recsv.take(i as int), recsv[i as int]);
            assert(recsv.take(i as int).push(recsv[i as int]) =~= recsv.take(i + 1));
            assert(out@ =~= spec_encode_list(keysv, recsv.take(i + 1)));
        }
        i = i + 1;
    }
    proof {
        assert(recsv.take(n as int) =~= recsv);
    }
    out
}

/// Match `lit` at position `pos`, yielding the position after it.
fn match_lit(s: &str, pos: usize, lit: &str) -> (r: Option<usize>)
    requires
        pos <= s@.len(),
    ensures
        r matches Option::Some(p2) ==> (pos <= p2 <= s@.len() && p2 == pos + lit@.len()
            && strip_prefix(lit@, s@.skip(pos as int)) == Option::Some(s@.skip(p2 as int))),
        r is None ==> strip_prefix(lit@, s@.skip(pos as int)) is None,
{
    let n = s.unicode_len();
    let m = lit.unicode_len();
    if m > n - pos {
        return Option::None;
    }
    let mut j: usize = 0;
    while j < m
        invariant
            n == s@.len(),
            m == lit@.len(),
            pos + m <= n,
            j <= m,
            forall|t: int| 0 <= t < j ==> s@[pos + t] == lit@[t],
        decreases m - j,
    {
        if s.get_char(pos + j) != lit.get_char(j) {
            proof {
                let tail = s@.skip(pos as int);
                assert(tail.take(m as int)[j as int] == s@[pos + j]);
                assert(tail.take(m as int) != lit@);
            }
            return Option::None;
        }
        j = j + 1;
    }
    proof {
        let tail = s@.skip(pos as int);
        assert(tail.take(m as int) =~= lit@);
        assert(tail.skip(m as int) =~= s@.skip(pos + m));
    }
    Option::Some(pos + m)
}

/// Read one escaped value and its closing quote, starting at `pos`.
fn parse_value_at(s: &str, pos: usize) -> (r: Option<(String, usize)>)
    requires
        pos <= s@.len(),
    ensures
        r matches Option::Some(vp) ==> (pos <= vp.1 <= s@.len() && spec_unesc(
            s@.skip(pos as int),
        ) == Option::Some((vp.0@, s@.skip(vp.1 as int)))),
        r is None ==> spec_unesc(s@.skip(pos as int)) is None,
{
    let n = s.unicode_len();
    let mut out = String::new();
    let mut i: usize = pos;
    proof {
        assert(out@ + Seq::<char>::empty() =~= out@);
    }
    while i < n
        invariant
            n == s@.len(),
            pos <= i <= n,
            spec_unesc(s@.skip(i as int)) matches Option::Some(vr) ==> spec_unesc(
                s@.skip(pos as int),
            ) == Option::Some((out@ + vr.0, vr.1)),
            spec_unesc(s@.skip(i as int)) is None ==> spec_unesc(s@.skip(pos as int)) is None,
        decreases n - i,
    {
        let ghost tail = s@.skip(i as int);
        proof {
            assert(tail.len() > 0);
            assert(tail[0] == s@[i as int]);
            assert(tail.skip(1) =~= s@.skip(i + 1));
        }
        let c = s.get_char(i);
        if c == '"' {
            proof {
                assert(spec_unesc(tail) == Option::Some(
                    (Seq::<char>::empty(), s@.skip(i + 1)),
                ));
                assert(out@ + Seq::<char>::empty() =~= out@);
            }
            return Option::Some((out, i + 1));
        } else if c == '\\' {
            if i + 1 >= n {
                proof {
                    assert(tail.len() < 2);
                    assert(spec_unesc(tail) is None);
                }
                return Option::None;
            }
            let ghost out0 = out@;
            proof {
                assert(tail[1] == s@[i + 1]);
                assert(tail.skip(2) =~= s@.skip(i + 2));
            }
            let code = s.get_char(i + 1);
            if code == '\\' {
                out.append("\\");
            } else if code == '"' {
                out.append("\"");
            } else if code == 'n' {
                out.append("\n");
            } else if code == 'r' {
                out.append("\r");
            } else if code == 't' {
                out.append("\t");
            } else {
                proof {
                    assert(unesc_code(tail[1]) is None);
                    assert(spec_unesc(tail) is None);
                }
                return Option::None;
            }
            proof {
                lemma_esc_lits();
                let decoded = unesc_code(tail[1]);
                assert(decoded matches Option::Some(d) && out@ == out0 + seq![d]);
                let d = decoded->Some_0;
                match spec_unesc(s@.skip(i + 2)) {
                    Option::Some(vr) => {
                        assert(spec_unesc(tail) == Option::Some((seq![d] + vr.0, vr.1)));
                        assert(out0 + (seq![d] + vr.0) =~= out@ + vr.0);
                    },
                    Option::None => {
                        assert(spec_unesc(tail) is None);
                    },
                }
            }
            i = i + 2;
        } else if c == '\n' {
            proof {
                assert(spec_unesc(tail) is None);
            }
            return Option::None;
        } else {
            let ghost out0 = out@;
            out.append(s.substring_char(i, i + 1));
            proof {
                assert(out@ == out0 + seq![tail[0]]);
                match spec_unesc(s@.skip(i + 1)) {
                    Option::Some(vr) => {
                        assert(spec_unesc(tail) == Option::Some((seq![tail[0]] + vr.0, vr.1)));
                        assert(out0 + (seq![tail[0]] + vr.0) =~= out@ + vr.0);
                    },
                    Option::None => {
                        assert(spec_unesc(tail) is None);
                    },
                }
            }
            i = i + 1;
        }
    }
    proof {
        assert(s@.skip(n as int).len() == 0);
        assert(spec_unesc(s@.skip(n as int)) is None);
    }
    Option::None
}

/// Read one record's field lines in key order, starting at `pos`.
fn parse_fields_at(s: &str, pos: usize, keys: &Vec<String>) -> (r: Option<(Vec<String>, usize)>)
    requires
        pos <= s@.len(),
    ensures
        r matches Option::Some(vp) ==> (pos <= vp.1 <= s@.len() && vp.0@.len() == keys@.len()
            && parse_fields(view_of_keys(keys@), s@.skip(pos as int)) == Option::Some(
            (vp.0@.map_values(|v: String| v@), s@.skip(vp.1 as int)),
        )),
        r is None ==> parse_fields(view_of_keys(keys@), s@.skip(pos as int)) is None,
{
    let ghost keysv = view_of_keys(keys@);
    let mut vals: Vec<String> = Vec::new();
    let mut p: usize = pos;
    let nk = keys.len();
    let mut k: usize = 0;
    proof {
        assert(keysv.skip(0) =~= keysv);
        assert(vals@.map_values(|v: String| v@) =~= Seq::<Seq<char>>::empty());
        match parse_fields(keysv, s@.skip(pos as int)) {
            Option::Some(vsr) => {
                assert(vals@.map_values(|v: String| v@) + vsr.0 =~= vsr.0);
            },
            Option::None => {},
        }
    }
    while k < nk
        invariant
            nk == keys@.len(),
            keysv == view_of_keys(keys@),
            k <= nk,
            pos <= p <= s@.len(),
            vals@.len() == k,
            parse_fields(keysv.skip(k as int), s@.skip(p as int)) matches Option::Some(vsr)
                ==> parse_fields(keysv, s@.skip(pos as int)) == Option::Some(
                (vals@.map_values(|v: String| v@) + vsr.0, vsr.1),
            ),
            parse_fields(keysv.skip(k as int), s@.skip(p as int)) is None ==> parse_fields(
                keysv,
                s@.skip(pos as int),
            ) is None,
        decreases nk - k,
    {
        let ghost p0 = p;
        let ghost vals0 = vals@;
        let ghost kk = keysv.skip(k as int);
        proof {
            assert(kk.len() > 0);
            assert(kk[0] == keysv[k as int]);
            assert(kk.skip(1) =~= keysv.skip(k + 1));
        }
        let mut prefix = keys[k].clone();
        prefix.append(" = \"");
        let p1 = match match_lit(s, p, prefix.as_str()) {
            Option::Some(p1) => p1,
            Option::None => {
                proof {
                    assert(prefix@ == keysv[k as int] + " = \""@);
                    assert(parse_field(kk[0], s@.skip(p as int)) is None);
                    assert(parse_fields(kk, s@.skip(p as int)) is None);
                }
                return Option::None;
            },
        };
        let vp = match parse_value_at(s, p1) {
            Option::Some(vp) => vp,
            Option::None => {
                proof {
                    assert(strip_prefix(kk[0] + " = \""@, s@.skip(p as int)) == Option::Some(
                        s@.skip(p1 as int),
                    ));
                    assert(parse_field(kk[0], s@.skip(p as int)) is None);
                    assert(parse_fields(kk, s@.skip(p as int)) is None);
                }
                return Option::None;
            },
        };
        let (value, p2) = vp;
        let p3 = match match_lit(s, p2, "\n") {
            Option::Some(p3) => p3,
            Option::None => {
                proof {
                    assert(strip_prefix(kk[0] + " = \""@, s@.skip(p as int)) == Option::Some(
                        s@.skip(p1 as int),
                    ));
                    assert(spec_unesc(s@.skip(p1 as int)) == Option::Some(
                        (value@, s@.skip(p2 as int)),
                    ));
                    assert(parse_field(kk[0], s@.skip(p as int)) is None);
                    assert(parse_fields(kk, s@.skip(p as int)) is None);
                }
                return Option::None;
            },
        };
        vals.push(value);
        p = p3;
        proof {
            assert(strip_prefix(kk[0] + " = \""@, s@.skip(p0 as int)) == Option::Some(
                s@.skip(p1 as int),
            ));
            assert(parse_field(kk[0], s@.skip(p0 as int)) == Option::Some(
                (value@, s@.skip(p3 as int)),
            ));
            assert(vals@ == vals0.push(value));
            match parse_fields(keysv.skip(k + 1), s@.skip(p3 as int)) {
                Option::Some(vsr) => {
                    assert(parse_fields(kk, s@.skip(p0 as int)) == Option::Some(
                        (seq![value@] + vsr.0, vsr.1),
                    ));
                    assert(vals0.map_values(|v: String| v@) + (seq![value@] + vsr.0) =~= vals@
                        .map_values(|v: String| v@) + vsr.0);
                },
                Option::None => {
                    assert(parse_fields(kk, s@.skip(p0 as int)) is None);
                },
            }
        }
        k = k + 1;
    }
    proof {
        assert(keysv.skip(nk as int).len() == 0);
        assert(parse_fields(keysv.skip(nk as int), s@.skip(p as int)) == Option::Some(
            (Seq::<Seq<char>>::empty(), s@.skip(p as int)),
        ));
        assert(vals@.map_values(|v: String| v@) + Seq::<Seq<char>>::empty() =~= vals@
            .map_values(|v: String| v@));
    }
    Option::Some((vals, p))
}

/// Decode a whole stored list back into records, or report the text
/// as corrupt.
pub fn decode_list<T: Entry>(s: &str, keys: &Vec<String>) -> (r: Result<TomlList<T>, StoreError>)
    requires
        keys@.len() == T::spec_field_count(),
    ensures
        r matches Ok(list) ==> (spec_parse_list(view_of_keys(keys@), s@) matches Option::Some(
            recs,
        ) && list.entry@.len() == recs.len() && (forall|i: int|
            0 <= i < recs.len() ==> (#[trigger] list.entry@[i]).spec_fields() == recs[i])),
        r is Err ==> (r == Err::<TomlList<T>, StoreError>(StoreError::CorruptStore)
            && spec_parse_list(view_of_keys(keys@), s@) is None),
{
    let ghost keysv = view_of_keys(keys@);
    let mut list: TomlList<T> = TomlList::new();
    let ghost mut done: Seq<Seq<Seq<char>>> = Seq::<Seq<Seq<char>>>::empty();
    let n = s.unicode_len();
    let mut pos: usize = 0;
    proof {
        assert(s@.skip(0) =~= s@);
        match spec_parse_list(keysv, s@) {
            Option::Some(recs) => {
                assert(done + recs =~= recs);
            },
            Option::None => {},
        }
    }
    while pos < n
        invariant
            n == s@.len(),
            keysv == view_of_keys(keys@),
            keys@.len() == T::spec_field_count(),
            pos <= n,
            list.entry@.len() == done.len(),
            forall|i: int|
                0 <= i < done.len() ==> (#[trigger] list.entry@[i]).spec_fields() == done[i],
            spec_parse_list(keysv, s@.skip(pos as int)) matches Option::Some(recs)
                ==> spec_parse_list(keysv, s@) == Option::Some(done + recs),
            spec_parse_list(keysv, s@.skip(pos as int)) is None ==> spec_parse_list(
                keysv,
                s@,
            ) is None,
        decreases n - pos,
    {
        let ghost pos0 = pos;
        let ghost done0 = done;
        proof {
            assert(s@.skip(pos as int).len() > 0);
        }
        let p1 = match match_lit(s, pos, "[[entry]]\n") {
            Option::Some(p1) => p1,
            Option::None => {
                proof {
                    assert(spec_parse_list(keysv, s@.skip(pos as int)) is None);
                }
                return Err(StoreError::CorruptStore);
            },
        };
        let vp = match parse_fields_at(s, p1, keys) {
            Option::Some(vp) => vp,
            Option::None => {
                proof {
                    assert(spec_parse_list(keysv, s@.skip(pos as int)) is None);
                }
                return Err(StoreError::CorruptStore);
            },
        };
        let (vals, p2) = vp;
        let entry = T::from_values(&vals);
        list.push(entry);
        proof {
            done = done.push(entry.spec_fields());
            assert(entry.spec_fields() =~= vals@.map_values(|v: String| v@)) by {
                entry.lemma_fields_len();
                assert(forall|j: int|
                    0 <= j < vals@.len() ==> #[trigger] entry.spec_fields()[j] == vals@[j]@);
            }
            match spec_parse_list(keysv, s@.skip(p2 as int)) {
                Option::Some(recs) => {
                    assert(spec_parse_list(keysv, s@.skip(pos0 as int)) == Option::Some(
                        seq![vals@.map_values(|v: String| v@)] + recs,
                    ));
                    assert(done0 + (seq![vals@.map_values(|v: String| v@)] + recs) =~= done
                        + recs);
                },
                Option::None => {
                    assert(spec_parse_list(keysv, s@.skip(pos0 as int)) is None);
                },
            }
        }
        pos = p2;
        proof {
            reveal_strlit("[[entry]]\n");
            assert(pos0 < pos);
        }
    }
    proof {
        assert(s@.skip(n as int).len() == 0);
        assert(spec_parse_list(keysv, s@.skip(n as int)) == Option::Some(
            Seq::<Seq<Seq<char>>>::empty(),
        ));
        assert(done + Seq::<Seq<Seq<char>>>::empty() =~= done);
    }
    Ok(list)
}

/// The store keys of a cluster record, in field order.
pub open spec fn spec_cluster_keys() -> Seq<Seq<char>> {
    seq!["name"@, "host"@, "user"@, "identity_file"@]
}

/// The store keys of a preset record, in field order.
pub open spec fn spec_spawner_keys() -> Seq<Seq<char>> {
    seq![
        "preset_name"@,
        "account"@,
        "partition"@,
        "time"@,
        "working_directory"@,
        "other_options"@,
    ]
}

/// The cluster store keys as strings.
pub fn cluster_keys() -> (r: Vec<String>)
    ensures
        view_of_keys(r@) == spec_cluster_keys(),
        r@.len() == 4,
{
    let mut r: Vec<String> = Vec::new();
    r.push("name".to_owned());
    r.push("host".to_owned());
    r.push("user".to_owned());
    r.push("identity_file".to_owned());
    proof {
        assert(view_of_keys(r@) =~= spec_cluster_keys());
    }
    r
}

/// The preset store keys as strings.
pub fn spawner_keys() -> (r: Vec<String>)
    ensures
        view_of_keys(r@) == spec_spawner_keys(),
        r@.len() == 6,
{
    let mut r: Vec<String> = Vec::new();
    r.push("preset_name".to_owned());
    r.push("account".to_owned());
    r.push("partition".to_owned());
    r.push("time".to_owned());
    r.push("working_directory".to_owned());
    r.push("other_options".to_owned());
    proof {
        assert(view_of_keys(r@) =~= spec_spawner_keys());
    }
    r
}

/// Encode a cluster list for its store.
pub fn encode_cluster_list(list: &TomlList<Cluster>) -> (r: String)
    ensures
        r@ == spec_encode_list(spec_cluster_keys(), fields_of_list(list.entry@)),
{
    let keys = cluster_keys();
    encode_list(&keys, list)
}

/// Decode a cluster list from its store, or report it corrupt.
pub fn decode_cluster_list(s: &str) -> (r: Result<TomlList<Cluster>, StoreError>)
    ensures
        r matches Ok(list) ==> (spec_parse_list(spec_cluster_keys(), s@) matches Option::Some(
            recs,
        ) && list.entry@.len() == recs.len() && (forall|i: int|
            0 <= i < recs.len() ==> (#[trigger] list.entry@[i]).spec_fields() == recs[i])),
        r is Err ==> (r == Err::<TomlList<Cluster>, StoreError>(StoreError::CorruptStore)
            && spec_parse_list(spec_cluster_keys(), s@) is None),
{
    let keys = cluster_keys();
    decode_list(s, &keys)
}

/// Encode a preset list for its store.
pub fn encode_spawner_list(list: &TomlList<Spawner>) -> (r: String)
    ensures
        r@ == spec_encode_list(spec_spawner_keys(), fields_of_list(list.entry@)),
{
    let keys = spawner_keys();
    encode_list(&keys, list)
}

/// Decode a preset list from its store, or report it corrupt.
pub fn decode_spawner_list(s: &str) -> (r: Result<TomlList<Spawner>, StoreError>)
    ensures
        r matches Ok(list) ==> (spec_parse_list(spec_spawner_keys(), s@) matches Option::Some(
            recs,
        ) && list.entry@.len() == recs.len() && (forall|i: int|
            0 <= i < recs.len() ==> (#[trigger] list.entry@[i]).spec_fields() == recs[i])),
        r is Err ==> (r == Err::<TomlList<Spawner>, StoreError>(StoreError::CorruptStore)
            && spec_parse_list(spec_spawner_keys(), s@) is None),
{
    let keys = spawner_keys();
    decode_list(s, &keys)
}

} // verus!
