use vstd::prelude::*;
use crate::AppError;
use crate::numtext::{int_dec_of, is_digit, parse_i64, spec_parse_i64, i64_dec};
use crate::store::{keys_unique, PrefEvent, PrefMap};
use crate::text::{chars_to_string, is_blank, str_chars, str_is_blank, sub_vec};
use crate::value::{PrefValue, ValModel};

verus! {

/// The hexadecimal digit standing for `d`.
pub open spec fn hex_char(d: nat) -> char {
    if d < 10 {
        crate::numtext::digit_char(d)
    } else if d == 10 {
        'a'
    } else if d == 11 {
        'b'
    } else if d == 12 {
        'c'
    } else if d == 13 {
        'd'
    } else if d == 14 {
        'e'
    } else {
        'f'
    }
}

/// How a character stands inside a printed string: quote, backslash and
/// control characters are escaped, everything else stands as itself.
pub open spec fn esc_char(c: char) -> Seq<char> {
    let u = c as u32;
    if c == '"' {
        seq!['\\', '"']
    } else if c == '\\' {
        seq!['\\', '\\']
    } else if u == 0x8 {
        seq!['\\', 'b']
    } else if u == 0xc {
        seq!['\\', 'f']
    } else if u == 0xa {
        seq!['\\', 'n']
    } else if u == 0xd {
        seq!['\\', 'r']
    } else if u == 0x9 {
        seq!['\\', 't']
    } else if u < 0x20 {
        seq!['\\', 'u', '0', '0', hex_char((u / 16) as nat), hex_char((u % 16) as nat)]
    } else {
        seq![c]
    }
}

pub open spec fn esc_string(s: Seq<char>) -> Seq<char>
    decreases s.len(),
{
    if s.len() == 0 {
        Seq::empty()
    } else {
        esc_char(s[0]) + esc_string(s.drop_first())
    }
}

/// A printed string: the escaped text in quotes.
pub open spec fn print_string(s: Seq<char>) -> Seq<char> {
    seq!['"'] + esc_string(s) + seq!['"']
}

/// A value printed without inner whitespace.
pub open spec fn print_compact(v: ValModel) -> Seq<char>
    decreases v, 0int,
{
    match v {
        ValModel::Null => seq!['n', 'u', 'l', 'l'],
        ValModel::Bool(b) => if b {
            seq!['t', 'r', 'u', 'e']
        } else {
            seq!['f', 'a', 'l', 's', 'e']
        },
        ValModel::Num(n) => int_dec_of(n),
        ValModel::Str(s) => print_string(s),
        ValModel::Arr(items) => seq!['['] + print_items(items, 0) + seq![']'],
        ValModel::Obj(es) => seq!['{'] + print_fields(es, 0) + seq!['}'],
    }
}

/// The items from `from` on, printed with commas between them.
pub open spec fn print_items(items: Seq<ValModel>, from: int) -> Seq<char>
    decreases items, items.len() - from, 1int,
{
    if from < 0 || from >= items.len() {
        Seq::empty()
    } else {
        print_compact(items[from]) + print_more_items(items, from + 1)
    }
}

/// A comma and an item, for each item from `from` on.
pub open spec fn print_more_items(items: Seq<ValModel>, from: int) -> Seq<char>
    decreases items, items.len() - from, 2int,
{
    if from < 0 || from >= items.len() {
        Seq::empty()
    } else {
        seq![','] + print_compact(items[from]) + print_more_items(items, from + 1)
    }
}

/// The fields from `from` on, printed `"key":value` with commas between.
pub open spec fn print_fields(es: Seq<(Seq<char>, ValModel)>, from: int) -> Seq<char>
    decreases es, es.len() - from, 1int,
{
    if from < 0 || from >= es.len() {
        Seq::empty()
    } else {
        print_string(es[from].0) + seq![':'] + print_compact(es[from].1) + print_more_fields(
            es,
            from + 1,
        )
    }
}

/// A comma and a field, for each field from `from` on.
pub open spec fn print_more_fields(es: Seq<(Seq<char>, ValModel)>, from: int) -> Seq<char>
    decreases es, es.len() - from, 2int,
{
    if from < 0 || from >= es.len() {
        Seq::empty()
    } else {
        seq![','] + print_string(es[from].0) + seq![':'] + print_compact(es[from].1)
            + print_more_fields(es, from + 1)
    }
}

/// The preference document: one line per entry, two spaces in, values
/// printed compactly.
pub open spec fn print_doc(m: Seq<(Seq<char>, ValModel)>) -> Seq<char> {
    if m.len() == 0 {
        seq!['{', '}']
    } else {
        seq!['{', '\n'] + print_doc_fields(m, 0) + seq!['}']
    }
}

pub open spec fn print_doc_fields(m: Seq<(Seq<char>, ValModel)>, from: int) -> Seq<char>
    decreases m.len() - from,
{
    if from < 0 || from >= m.len() {
        Seq::empty()
    } else {
        let line = seq![' ', ' '] + print_string(m[from].0) + seq![':', ' '] + print_compact(
            m[from].1,
        );
        if from == m.len() - 1 {
            line + seq!['\n']
        } else {
            line + seq![',', '\n'] + print_doc_fields(m, from + 1)
        }
    }
}


/// The hexadecimal digit for `d`.
fn hex_char_of(d: u32) -> (c: char)
    requires
        d < 16,
    ensures
        c == hex_char(d as nat),
{
    if d < 10 {
        crate::numtext::digit_char_of(d as u64)
    } else if d == 10 {
        'a'
    } else if d == 11 {
        'b'
    } else if d == 12 {
        'c'
    } else if d == 13 {
        'd'
    } else if d == 14 {
        'e'
    } else {
        'f'
    }
}

/// Appends a copy of `v`.
fn extend_chars(out: &mut Vec<char>, v: &Vec<char>)
    ensures
        final(out)@ == old(out)@ + v@,
{
    let ghost pre = out@;
    let n = v.len();
    let mut i: usize = 0;
    while i < n
        invariant
            i <= n == v@.len(),
            out@ == pre + v@.take(i as int),
        decreases n - i,
    {
        let c = v[i];
        proof {
            assert((pre + v@.take(i as int)).push(c) =~= pre + v@.take(i + 1));
        }
        out.push(c);
        i = i + 1;
    }
    proof {
        assert(pre + v@.take(n as int) =~= pre + v@);
    }
}

fn esc_char_into(c: char, out: &mut Vec<char>)
    ensures
        final(out)@ == old(out)@ + esc_char(c),
{
    let ghost pre = out@;
    let u = c as u32;
    if c == '"' {
        out.push('\\');
        out.push('"');
        proof {
            assert(out@ =~= pre + esc_char(c));
        }
    } else if c == '\\' {
        out.push('\\');
        out.push('\\');
        proof {
            assert(out@ =~= pre + esc_char(c));
        }
    } else if u == 0x8 {
        out.push('\\');
        out.push('b');
        proof {
            assert(out@ =~= pre + esc_char(c));
        }
    } else if u == 0xc {
        out.push('\\');
        out.push('f');
        proof {
            assert(out@ =~= pre + esc_char(c));
        }
    } else if u == 0xa {
        out.push('\\');
        out.push('n');
        proof {
            assert(out@ =~= pre + esc_char(c));
        }
    } else if u == 0xd {
        out.push('\\');
        out.push('r');
        proof {
            assert(out@ =~= pre + esc_char(c));
        }
    } else if u == 0x9 {
        out.push('\\');
        out.push('t');
        proof {
            assert(out@ =~= pre + esc_char(c));
        }
    } else if u < 0x20 {
        out.push('\\');
        out.push('u');
        out.push('0');
        out.push('0');
        out.push(hex_char_of(u / 16));
        out.push(hex_char_of(u % 16));
        proof {
            assert(out@ =~= pre + esc_char(c));
        }
    } else {
        out.push(c);
        proof {
            assert(out@ =~= pre + esc_char(c));
        }
    }
}

proof fn lemma_esc_push(s: Seq<char>, c: char)
    ensures
        esc_string(s.push(c)) == esc_string(s) + esc_char(c),
    decreases s.len(),
{
    if s.len() == 0 {
        assert(s.push(c)[0] == c);
        assert(s.push(c).drop_first() =~= Seq::<char>::empty());
        assert(esc_string(s.push(c)) == esc_char(c) + esc_string(Seq::<char>::empty()));
        assert(esc_char(c) + Seq::<char>::empty() =~= esc_char(c));
        assert(esc_string(s) + esc_char(c) =~= esc_char(c));
    } else {
        lemma_esc_push(s.drop_first(), c);
        assert(s.push(c).drop_first() =~= s.drop_first().push(c));
        assert(esc_char(s[0]) + (esc_string(s.drop_first()) + esc_char(c)) =~= (esc_char(s[0])
            + esc_string(s.drop_first())) + esc_char(c));
    }
}

/// Appends the escaped text of `s`.
fn esc_into(s: &str, out: &mut Vec<char>)
    ensures
        final(out)@ == old(out)@ + esc_string(s@),
{
    let ghost pre = out@;
    let v = str_chars(s);
    let n = v.len();
    let mut i: usize = 0;
    while i < n
        invariant
            i <= n == v@.len(),
            v@ == s@,
            out@ == pre + esc_string(s@.take(i as int)),
        decreases n - i,
    {
        let c = v[i];
        proof {
            lemma_esc_push(s@.take(i as int), c);
            assert(s@.take(i + 1) =~= s@.take(i as int).push(c));
            assert(pre + (esc_string(s@.take(i as int)) + esc_char(c)) =~= (pre + esc_string(
                s@.take(i as int),
            )) + esc_char(c));
        }
        esc_char_into(c, out);
        i = i + 1;
    }
    proof {
        assert(s@.take(n as int) =~= s@);
    }
}

/// Appends the printed form of a string.
fn print_string_into(s: &str, out: &mut Vec<char>)
    ensures
        final(out)@ == old(out)@ + print_string(s@),
{
    let ghost pre = out@;
    out.push('"');
    esc_into(s, out);
    out.push('"');
    proof {
        assert(out@ =~= pre + print_string(s@));
    }
}

/// Appends the compact printed form of a value.
fn print_value_into(v: &PrefValue, out: &mut Vec<char>)
    ensures
        final(out)@ == old(out)@ + print_compact(v.model()),
    decreases *v, 0int,
{
    let ghost pre = out@;
    match v {
        PrefValue::Null => {
            out.push('n');
            out.push('u');
            out.push('l');
            out.push('l');
            proof {
                assert(out@ =~= pre + print_compact(v.model()));
            }
        },
        PrefValue::Bool(b) => {
            if *b {
                out.push('t');
                out.push('r');
                out.push('u');
                out.push('e');
            } else {
                out.push('f');
                out.push('a');
                out.push('l');
                out.push('s');
                out.push('e');
            }
            proof {
                assert(out@ =~= pre + print_compact(v.model()));
            }
        },
        PrefValue::Num(n) => {
            let d = i64_dec(*n);
            extend_chars(out, &d);
        },
        PrefValue::Str(s) => {
            print_string_into(s.as_str(), out);
        },
        PrefValue::Arr(items) => {
            out.push('[');
            print_items_into(items, 0, out);
            out.push(']');
            proof {
                assert(v.model()->Arr_0 =~= vals_model(items@));
                assert(out@ =~= pre + print_compact(v.model()));
            }
        },
        PrefValue::Obj(es) => {
            out.push('{');
            print_fields_into(es, 0, out);
            out.push('}');
            proof {
                assert(v.model()->Obj_0 =~= crate::profile::obj_fields_model(es@));
                assert(out@ =~= pre + print_compact(v.model()));
            }
        },
    }
}

/// The values' mathematical shapes, in order.
pub open spec fn vals_model(s: Seq<PrefValue>) -> Seq<ValModel> {
    Seq::new(
        s.len(),
        |i: int|
            if 0 <= i < s.len() {
                s[i].model()
            } else {
                ValModel::Null
            },
    )
}

/// Appends the items from `from` on, commas between them.
fn print_items_into(items: &Vec<PrefValue>, from: usize, out: &mut Vec<char>)
    ensures
        final(out)@ == old(out)@ + print_items(vals_model(items@), from as int),
    decreases *items, items@.len() - from, 1int,
{
    let ghost pre = out@;
    let n = items.len();
    if from >= n {
        proof {
            assert(pre + print_items(vals_model(items@), from as int) =~= pre);
        }
        return ;
    }
    proof {
        assert(vals_model(items@)[from as int] == items@[from as int].model());
    }
    print_value_into(&items[from], out);
    print_more_items_into(items, from + 1, out);
    proof {
        assert(out@ =~= pre + print_items(vals_model(items@), from as int));
    }
}

/// Appends a comma and an item, for each item from `from` on.
fn print_more_items_into(items: &Vec<PrefValue>, from: usize, out: &mut Vec<char>)
    ensures
        final(out)@ == old(out)@ + print_more_items(vals_model(items@), from as int),
    decreases *items, items@.len() - from, 2int,
{
    let ghost pre = out@;
    let n = items.len();
    if from >= n {
        proof {
            assert(pre + print_more_items(vals_model(items@), from as int) =~= pre);
        }
        return ;
    }
    proof {
        assert(vals_model(items@)[from as int] == items@[from as int].model());
    }
    out.push(',');
    print_value_into(&items[from], out);
    print_more_items_into(items, from + 1, out);
    proof {
        assert(out@ =~= pre + print_more_items(vals_model(items@), from as int));
    }
}

/// Appends the fields from `from` on, `"key":value`, commas between them.
fn print_fields_into(es: &Vec<(String, PrefValue)>, from: usize, out: &mut Vec<char>)
    ensures
        final(out)@ == old(out)@ + print_fields(
            crate::profile::obj_fields_model(es@),
            from as int,
        ),
    decreases *es, es@.len() - from, 1int,
{
    let ghost pre = out@;
    let ghost em = crate::profile::obj_fields_model(es@);
    let n = es.len();
    if from >= n {
        proof {
            assert(pre + print_fields(em, from as int) =~= pre);
        }
        return ;
    }
    proof {
        assert(em[from as int] == (es@[from as int].0@, es@[from as int].1.model()));
    }
    print_string_into(es[from].0.as_str(), out);
    out.push(':');
    print_value_into(&es[from].1, out);
    print_more_fields_into(es, from + 1, out);
    proof {
        assert(out@ =~= pre + print_fields(em, from as int));
    }
}

/// Appends a comma and a field, for each field from `from` on.
fn print_more_fields_into(es: &Vec<(String, PrefValue)>, from: usize, out: &mut Vec<char>)
    ensures
        final(out)@ == old(out)@ + print_more_fields(
            crate::profile::obj_fields_model(es@),
            from as int,
        ),
    decreases *es, es@.len() - from, 2int,
{
    let ghost pre = out@;
    let ghost em = crate::profile::obj_fields_model(es@);
    let n = es.len();
    if from >= n {
        proof {
            assert(pre + print_more_fields(em, from as int) =~= pre);
        }
        return ;
    }
    proof {
        assert(em[from as int] == (es@[from as int].0@, es@[from as int].1.model()));
    }
    out.push(',');
    print_string_into(es[from].0.as_str(), out);
    out.push(':');
    print_value_into(&es[from].1, out);
    print_more_fields_into(es, from + 1, out);
    proof {
        assert(out@ =~= pre + print_more_fields(em, from as int));
    }
}


/// The whitespace a document may hold between tokens.
pub open spec fn is_json_ws(c: char) -> bool {
    c == ' ' || c == '\n' || c == '\r' || c == '\t'
}

/// `j`, but never before `i`.
pub open spec fn at_least(j: int, i: int) -> int {
    if j >= i {
        j
    } else {
        i
    }
}

/// `j`, held inside `lo ..= hi`.
pub open spec fn clamp_to(j: int, lo: int, hi: int) -> int {
    if j < lo {
        lo
    } else if j > hi {
        hi
    } else {
        j
    }
}

/// The first position at or after `i` that holds no whitespace.
pub open spec fn spec_skip_ws(s: Seq<char>, i: int) -> int
    decreases s.len() - i,
{
    if 0 <= i < s.len() && is_json_ws(s[i]) {
        spec_skip_ws(s, i + 1)
    } else {
        i
    }
}

/// The position right after the digit run starting at `i`.
pub open spec fn spec_num_end(s: Seq<char>, i: int) -> int
    decreases s.len() - i,
{
    if 0 <= i < s.len() && is_digit(s[i]) {
        spec_num_end(s, i + 1)
    } else {
        i
    }
}

pub open spec fn spec_hex_val(c: char) -> Option<u32> {
    let u = c as u32;
    if '0' <= c && c <= '9' {
        Some((u - 48) as u32)
    } else if 'a' <= c && c <= 'f' {
        Some((u - 87) as u32)
    } else if 'A' <= c && c <= 'F' {
        Some((u - 55) as u32)
    } else {
        None
    }
}

/// Reads a string body after its opening quote: the text, and the position
/// after the closing quote. Escapes are decoded; a bare control character, a
/// lone backslash, a bad escape or a surrogate code is refused.
pub open spec fn spec_parse_string(s: Seq<char>, i: int) -> Option<(Seq<char>, int)>
    decreases s.len() - i, 0int,
{
    if i < 0 || i >= s.len() {
        None
    } else if s[i] == '"' {
        Some((Seq::empty(), i + 1))
    } else if s[i] == '\\' {
        if i + 1 >= s.len() {
            None
        } else {
            let e = s[i + 1];
            if e == '"' || e == '\\' || e == '/' {
                match spec_parse_string(s, i + 2) {
                    Some(p) => Some((seq![e] + p.0, p.1)),
                    None => None,
                }
            } else if e == 'b' || e == 'f' || e == 'n' || e == 'r' || e == 't' {
                let c = if e == 'b' {
                    8u32 as char
                } else if e == 'f' {
                    12u32 as char
                } else if e == 'n' {
                    10u32 as char
                } else if e == 'r' {
                    13u32 as char
                } else {
                    9u32 as char
                };
                match spec_parse_string(s, i + 2) {
                    Some(p) => Some((seq![c] + p.0, p.1)),
                    None => None,
                }
            } else if e == 'u' {
                if i + 6 > s.len() {
                    None
                } else {
                    match (spec_hex_val(s[i + 2]), spec_hex_val(s[i + 3]), spec_hex_val(s[i + 4]),
                    spec_hex_val(s[i + 5])) {
                        (Some(h3), Some(h2), Some(h1), Some(h0)) => {
                            let code = ((h3 * 4096 + h2 * 256 + h1 * 16 + h0) as u32);
                            if 0xD800 <= code <= 0xDFFF {
                                None
                            } else {
                                match spec_parse_string(s, i + 6) {
                                    Some(p) => Some((seq![code as char] + p.0, p.1)),
                                    None => None,
                                }
                            }
                        },
                        _ => None,
                    }
                }
            } else {
                None
            }
        }
    } else if (s[i] as u32) < 0x20 {
        None
    } else {
        match spec_parse_string(s, i + 1) {
            Some(p) => Some((seq![s[i]] + p.0, p.1)),
            None => None,
        }
    }
}

/// Reads one value starting at `i`, whitespace before it allowed: the value
/// and the position after it. A number must be a whole number that a signed
/// 64-bit integer holds.
pub open spec fn spec_parse_value(s: Seq<char>, i: int) -> Option<(ValModel, int)>
    decreases s.len() - i, 1int,
{
    let j = at_least(spec_skip_ws(s, i), i);
    if j >= s.len() {
        None
    } else if s[j] == 'n' {
        if j + 4 <= s.len() && s[j + 1] == 'u' && s[j + 2] == 'l' && s[j + 3] == 'l' {
            Some((ValModel::Null, j + 4))
        } else {
            None
        }
    } else if s[j] == 't' {
        if j + 4 <= s.len() && s[j + 1] == 'r' && s[j + 2] == 'u' && s[j + 3] == 'e' {
            Some((ValModel::Bool(true), j + 4))
        } else {
            None
        }
    } else if s[j] == 'f' {
        if j + 5 <= s.len() && s[j + 1] == 'a' && s[j + 2] == 'l' && s[j + 3] == 's' && s[j + 4]
            == 'e' {
            Some((ValModel::Bool(false), j + 5))
        } else {
            None
        }
    } else if s[j] == '"' {
        match spec_parse_string(s, j + 1) {
            Some(p) => Some((ValModel::Str(p.0), p.1)),
            None => None,
        }
    } else if s[j] == '[' {
        match spec_parse_items(s, j + 1) {
            Some(p) => Some((ValModel::Arr(p.0), p.1)),
            None => None,
        }
    } else if s[j] == '{' {
        match spec_parse_fields(s, j + 1) {
            Some(p) => Some((ValModel::Obj(p.0), p.1)),
            None => None,
        }
    } else if s[j] == '-' || is_digit(s[j]) {
        let e = if s[j] == '-' {
            spec_num_end(s, j + 1)
        } else {
            spec_num_end(s, j)
        };
        if e <= s.len() && (e == s.len() || !(s[e] == '.' || s[e] == 'e' || s[e] == 'E')) {
            match spec_parse_i64(s.subrange(j, at_least(e, j + 1))) {
                Some(n) => Some((ValModel::Num(n as int), at_least(e, j + 1))),
                None => None,
            }
        } else {
            None
        }
    } else {
        None
    }
}

/// Reads an array body after its bracket: the items and the position after
/// the closing bracket.
pub open spec fn spec_parse_items(s: Seq<char>, i: int) -> Option<(Seq<ValModel>, int)>
    decreases s.len() - i, 2int,
{
    let k = at_least(spec_skip_ws(s, i), i);
    if k >= s.len() {
        None
    } else if s[k] == ']' {
        Some((Seq::empty(), k + 1))
    } else {
        match spec_parse_value(s, k) {
            Some(p) => {
                match spec_parse_more_items(s, clamp_to(p.1, k + 1, s.len() as int)) {
                    Some(q) => Some((seq![p.0] + q.0, q.1)),
                    None => None,
                }
            },
            None => None,
        }
    }
}

/// Reads what follows an array item: either the closing bracket, or a comma
/// and the items after it.
pub open spec fn spec_parse_more_items(s: Seq<char>, i: int) -> Option<(Seq<ValModel>, int)>
    decreases s.len() - i, 2int,
{
    let k = at_least(spec_skip_ws(s, i), i);
    if k >= s.len() {
        None
    } else if s[k] == ']' {
        Some((Seq::empty(), k + 1))
    } else if s[k] == ',' {
        match spec_parse_value(s, k + 1) {
            Some(p) => {
                match spec_parse_more_items(s, clamp_to(p.1, k + 1, s.len() as int)) {
                    Some(q) => Some((seq![p.0] + q.0, q.1)),
                    None => None,
                }
            },
            None => None,
        }
    } else {
        None
    }
}

/// Reads an object body after its brace: the fields and the position after
/// the closing brace.
pub open spec fn spec_parse_fields(s: Seq<char>, i: int) -> Option<
    (Seq<(Seq<char>, ValModel)>, int),
>
    decreases s.len() - i, 2int,
{
    let k = at_least(spec_skip_ws(s, i), i);
    if k >= s.len() {
        None
    } else if s[k] == '}' {
        Some((Seq::empty(), k + 1))
    } else if s[k] == '"' {
        match spec_parse_field_at(s, k) {
            Some(p) => {
                match spec_parse_more_fields(s, clamp_to(p.1, k + 1, s.len() as int)) {
                    Some(q) => Some((seq![p.0] + q.0, q.1)),
                    None => None,
                }
            },
            None => None,
        }
    } else {
        None
    }
}

/// Reads one `"key": value` field whose quote stands at `k`.
pub open spec fn spec_parse_field_at(s: Seq<char>, k: int) -> Option<((Seq<char>, ValModel), int)>
    decreases s.len() - k, 1int,
{
    match spec_parse_string(s, k + 1) {
        Some(p) => {
            let c = at_least(spec_skip_ws(s, p.1), at_least(p.1, k + 1));
            if c < s.len() && s[c] == ':' {
                match spec_parse_value(s, c + 1) {
                    Some(q) => Some(((p.0, q.0), q.1)),
                    None => None,
                }
            } else {
                None
            }
        },
        None => None,
    }
}

/// Reads what follows an object field: either the closing brace, or a comma
/// and the fields after it.
pub open spec fn spec_parse_more_fields(s: Seq<char>, i: int) -> Option<
    (Seq<(Seq<char>, ValModel)>, int),
>
    decreases s.len() - i, 2int,
{
    let k = at_least(spec_skip_ws(s, i), i);
    if k >= s.len() {
        None
    } else if s[k] == '}' {
        Some((Seq::empty(), k + 1))
    } else if s[k] == ',' {
        let k2 = at_least(spec_skip_ws(s, k + 1), k + 1);
        if k2 < s.len() && s[k2] == '"' {
            match spec_parse_field_at(s, k2) {
                Some(p) => {
                    match spec_parse_more_fields(s, clamp_to(p.1, k2 + 1, s.len() as int)) {
                        Some(q) => Some((seq![p.0] + q.0, q.1)),
                        None => None,
                    }
                },
                None => None,
            }
        } else {
            None
        }
    } else {
        None
    }
}

/// What a preference document says: the fields of its one object, in order;
/// nothing when the text is not a single well-formed object.
pub open spec fn spec_parse_doc(s: Seq<char>) -> Option<Seq<(Seq<char>, ValModel)>> {
    match spec_parse_value(s, 0) {
        Some(p) => {
            match p.0 {
                ValModel::Obj(es) => {
                    if at_least(spec_skip_ws(s, p.1), p.1) >= s.len() {
                        Some(es)
                    } else {
                        None
                    }
                },
                _ => None,
            }
        },
        None => None,
    }
}


/// Whether `c` separates tokens.
fn json_ws(c: char) -> (r: bool)
    ensures
        r == is_json_ws(c),
{
    c == ' ' || c == '\n' || c == '\r' || c == '\t'
}

/// The first position at or after `i` that holds no whitespace.
fn skip_ws(s: &Vec<char>, i: usize) -> (r: usize)
    requires
        i <= s@.len(),
    ensures
        r as int == spec_skip_ws(s@, i as int),
        i <= r <= s@.len(),
{
    let n = s.len();
    let mut cur = i;
    loop
        invariant
            i <= cur <= n == s@.len(),
            spec_skip_ws(s@, i as int) == spec_skip_ws(s@, cur as int),
        decreases n - cur,
    {
        if cur >= n {
            return cur;
        }
        if !json_ws(s[cur]) {
            return cur;
        }
        cur = cur + 1;
    }
}

/// The position right after the digit run starting at `i`.
fn num_end(s: &Vec<char>, i: usize) -> (r: usize)
    requires
        i <= s@.len(),
    ensures
        r as int == spec_num_end(s@, i as int),
        i <= r <= s@.len(),
{
    let n = s.len();
    let mut cur = i;
    loop
        invariant
            i <= cur <= n == s@.len(),
            spec_num_end(s@, i as int) == spec_num_end(s@, cur as int),
        decreases n - cur,
    {
        if cur >= n {
            return cur;
        }
        let c = s[cur];
        if !('0' <= c && c <= '9') {
            return cur;
        }
        cur = cur + 1;
    }
}

/// The value of a hexadecimal digit.
fn hex_val(c: char) -> (r: Option<u32>)
    ensures
        r == spec_hex_val(c),
{
    let u = c as u32;
    if '0' <= c && c <= '9' {
        Some(u - 48)
    } else if 'a' <= c && c <= 'f' {
        Some(u - 87)
    } else if 'A' <= c && c <= 'F' {
        Some(u - 55)
    } else {
        None
    }
}

/// Reads a string body after its opening quote.
#[verifier::rlimit(100)]
fn parse_string_at(s: &Vec<char>, i: usize) -> (r: Option<(Vec<char>, usize)>)
    requires
        i <= s@.len(),
    ensures
        match r {
            Some(p) => i < p.1 <= s@.len() && spec_parse_string(s@, i as int) == Some(
                (p.0@, p.1 as int),
            ),
            None => spec_parse_string(s@, i as int) is None,
        },
    decreases s@.len() - i, 0int,
{
    broadcast use vstd::utf8::char_u32_cast;

    let n = s.len();
    if i >= n {
        return None;
    }
    let c = s[i];
    if c == '"' {
        let empty: Vec<char> = Vec::new();
        proof {
            assert(empty@ =~= Seq::<char>::empty());
        }
        return Some((empty, i + 1));
    }
    if c == '\\' {
        if i + 1 >= n {
            return None;
        }
        let e = s[i + 1];
        if e == '"' || e == '\\' || e == '/' {
            match parse_string_at(s, i + 2) {
                Some((mut t, end)) => {
                    let ghost tp = t@;
                    t.insert(0, e);
                    proof {
                        assert(t@ =~= seq![e] + tp);
                    }
                    Some((t, end))
                },
                None => None,
            }
        } else if e == 'b' || e == 'f' || e == 'n' || e == 'r' || e == 't' {
            let d: char = if e == 'b' {
                '\u{8}'
            } else if e == 'f' {
                '\u{c}'
            } else if e == 'n' {
                '\n'
            } else if e == 'r' {
                '\r'
            } else {
                '\t'
            };
            proof {
                assert('\u{8}' as u32 == 8 && '\u{c}' as u32 == 12 && '\n' as u32 == 10 && '\r'
                    as u32 == 13 && '\t' as u32 == 9);
            }
            match parse_string_at(s, i + 2) {
                Some((mut t, end)) => {
                    let ghost tp = t@;
                    t.insert(0, d);
                    proof {
                        assert(t@ =~= seq![d] + tp);
                    }
                    Some((t, end))
                },
                None => None,
            }
        } else if e == 'u' {
            if n - i < 6 {
                return None;
            }
            let h3 = hex_val(s[i + 2]);
            let h2 = hex_val(s[i + 3]);
            let h1 = hex_val(s[i + 4]);
            let h0 = hex_val(s[i + 5]);
            match (h3, h2, h1, h0) {
                (Some(h3), Some(h2), Some(h1), Some(h0)) => {
                    let code = h3 * 4096 + h2 * 256 + h1 * 16 + h0;
                    if 0xD800 <= code && code <= 0xDFFF {
                        return None;
                    }
                    let ch = match crate::text::char_from_code(code) {
                        Some(ch) => ch,
                        None => {
                            proof {
                                assert(false);
                            }
                            ' '
                        },
                    };
                    match parse_string_at(s, i + 6) {
                        Some((mut t, end)) => {
                            let ghost tp = t@;
                            t.insert(0, ch);
                            proof {
                                assert(t@ =~= seq![ch] + tp);
                                vstd::utf8::char_u32_cast(ch, code);
                                assert((code as char) == ch);
                            }
                            Some((t, end))
                        },
                        None => None,
                    }
                },
                _ => None,
            }
        } else {
            None
        }
    } else if (c as u32) < 0x20 {
        None
    } else {
        match parse_string_at(s, i + 1) {
            Some((mut t, end)) => {
                let ghost tp = t@;
                t.insert(0, c);
                proof {
                    assert(t@ =~= seq![c] + tp);
                }
                Some((t, end))
            },
            None => None,
        }
    }
}

/// Reads one value starting at `i`.
fn parse_value_at(s: &Vec<char>, i: usize) -> (r: Option<(PrefValue, usize)>)
    requires
        i <= s@.len(),
    ensures
        match r {
            Some(p) => i < p.1 <= s@.len() && spec_parse_value(s@, i as int) == Some(
                (p.0.model(), p.1 as int),
            ),
            None => spec_parse_value(s@, i as int) is None,
        },
    decreases s@.len() - i, 1int,
{
    let n = s.len();
    let j = skip_ws(s, i);
    if j >= n {
        return None;
    }
    let c = s[j];
    if c == 'n' {
        if n - j >= 4 && s[j + 1] == 'u' && s[j + 2] == 'l' && s[j + 3] == 'l' {
            Some((PrefValue::Null, j + 4))
        } else {
            None
        }
    } else if c == 't' {
        if n - j >= 4 && s[j + 1] == 'r' && s[j + 2] == 'u' && s[j + 3] == 'e' {
            Some((PrefValue::Bool(true), j + 4))
        } else {
            None
        }
    } else if c == 'f' {
        if n - j >= 5 && s[j + 1] == 'a' && s[j + 2] == 'l' && s[j + 3] == 's' && s[j + 4] == 'e' {
            Some((PrefValue::Bool(false), j + 5))
        } else {
            None
        }
    } else if c == '"' {
        match parse_string_at(s, j + 1) {
            Some((t, end)) => Some((PrefValue::Str(chars_to_string(&t)), end)),
            None => None,
        }
    } else if c == '[' {
        match parse_items_at(s, j + 1) {
            Some((items, end)) => {
                let v = PrefValue::Arr(items);
                proof {
                    assert(v.model()->Arr_0 =~= vals_model(v->Arr_0@));
                }
                Some((v, end))
            },
            None => None,
        }
    } else if c == '{' {
        match parse_fields_at(s, j + 1) {
            Some((fields, end)) => {
                let v = PrefValue::Obj(fields);
                proof {
                    assert(v.model()->Obj_0 =~= crate::profile::obj_fields_model(v->Obj_0@));
                }
                Some((v, end))
            },
            None => None,
        }
    } else if c == '-' || ('0' <= c && c <= '9') {
        let e = if c == '-' {
            num_end(s, j + 1)
        } else {
            num_end(s, j)
        };
        if !(e == n || !(s[e] == '.' || s[e] == 'e' || s[e] == 'E')) {
            return None;
        }
        let stop = if e >= j + 1 {
            e
        } else {
            j + 1
        };
        proof {
            if c != '-' {
                assert(spec_num_end(s@, j as int) == spec_num_end(s@, j + 1));
            }
            assert(stop as int == at_least(
                if c == '-' {
                    spec_num_end(s@, j + 1)
                } else {
                    spec_num_end(s@, j as int)
                },
                j + 1,
            ));
        }
        let token = sub_vec(s, j, stop);
        match parse_i64(&token) {
            Some(v) => Some((PrefValue::Num(v), stop)),
            None => None,
        }
    } else {
        None
    }
}

/// Reads an array body after its bracket.
fn parse_items_at(s: &Vec<char>, i: usize) -> (r: Option<(Vec<PrefValue>, usize)>)
    requires
        i <= s@.len(),
    ensures
        match r {
            Some(p) => i <= p.1 <= s@.len() && spec_parse_items(s@, i as int) == Some(
                (vals_model(p.0@), p.1 as int),
            ),
            None => spec_parse_items(s@, i as int) is None,
        },
    decreases s@.len() - i, 2int,
{
    let n = s.len();
    let k = skip_ws(s, i);
    if k >= n {
        return None;
    }
    if s[k] == ']' {
        let empty: Vec<PrefValue> = Vec::new();
        proof {
            assert(vals_model(empty@) =~= Seq::<ValModel>::empty());
        }
        return Some((empty, k + 1));
    }
    match parse_value_at(s, k) {
        None => None,
        Some((v, m)) => {
            match parse_more_items_at(s, m) {
                None => None,
                Some((mut rest, end)) => {
                    proof {
                        assert(clamp_to(m as int, k + 1, s@.len() as int) == m as int);
                    }
                    let ghost rm = vals_model(rest@);
                    rest.insert(0, v);
                    proof {
                        assert(vals_model(rest@) =~= seq![rest@[0].model()] + rm);
                    }
                    Some((rest, end))
                },
            }
        },
    }
}

/// Reads what follows an array item.
fn parse_more_items_at(s: &Vec<char>, i: usize) -> (r: Option<(Vec<PrefValue>, usize)>)
    requires
        i <= s@.len(),
    ensures
        match r {
            Some(p) => i <= p.1 <= s@.len() && spec_parse_more_items(s@, i as int) == Some(
                (vals_model(p.0@), p.1 as int),
            ),
            None => spec_parse_more_items(s@, i as int) is None,
        },
    decreases s@.len() - i, 2int,
{
    let n = s.len();
    let k = skip_ws(s, i);
    if k >= n {
        return None;
    }
    if s[k] == ']' {
        let empty: Vec<PrefValue> = Vec::new();
        proof {
            assert(vals_model(empty@) =~= Seq::<ValModel>::empty());
        }
        return Some((empty, k + 1));
    }
    if s[k] != ',' {
        return None;
    }
    match parse_value_at(s, k + 1) {
        None => None,
        Some((v, m)) => {
            match parse_more_items_at(s, m) {
                None => None,
                Some((mut rest, end)) => {
                    proof {
                        assert(clamp_to(m as int, k + 1, s@.len() as int) == m as int);
                    }
                    let ghost rm = vals_model(rest@);
                    rest.insert(0, v);
                    proof {
                        assert(vals_model(rest@) =~= seq![rest@[0].model()] + rm);
                    }
                    Some((rest, end))
                },
            }
        },
    }
}

/// Reads one `"key": value` field whose quote stands at `k`.
fn parse_field_at(s: &Vec<char>, k: usize) -> (r: Option<((String, PrefValue), usize)>)
    requires
        k < s@.len(),
    ensures
        match r {
            Some(p) => k < p.1 <= s@.len() && spec_parse_field_at(s@, k as int) == Some(
                ((p.0.0@, p.0.1.model()), p.1 as int),
            ),
            None => spec_parse_field_at(s@, k as int) is None,
        },
    decreases s@.len() - k, 1int,
{
    let n = s.len();
    match parse_string_at(s, k + 1) {
        None => None,
        Some((key, m)) => {
            let c = skip_ws(s, m);
            proof {
                assert(at_least(m as int, k + 1) == m as int);
                assert(at_least(spec_skip_ws(s@, m as int), m as int) == c as int);
            }
            if !(c < n && s[c] == ':') {
                return None;
            }
            match parse_value_at(s, c + 1) {
                None => None,
                Some((v, end)) => Some(((chars_to_string(&key), v), end)),
            }
        },
    }
}

/// Reads an object body after its brace.
fn parse_fields_at(s: &Vec<char>, i: usize) -> (r: Option<(Vec<(String, PrefValue)>, usize)>)
    requires
        i <= s@.len(),
    ensures
        match r {
            Some(p) => i <= p.1 <= s@.len() && spec_parse_fields(s@, i as int) == Some(
                (crate::profile::obj_fields_model(p.0@), p.1 as int),
            ),
            None => spec_parse_fields(s@, i as int) is None,
        },
    decreases s@.len() - i, 2int,
{
    let n = s.len();
    let k = skip_ws(s, i);
    if k >= n {
        return None;
    }
    if s[k] == '}' {
        let empty: Vec<(String, PrefValue)> = Vec::new();
        proof {
            assert(crate::profile::obj_fields_model(empty@) =~= Seq::<(Seq<char>, ValModel)>::empty());
        }
        return Some((empty, k + 1));
    }
    if s[k] != '"' {
        return None;
    }
    match parse_field_at(s, k) {
        None => None,
        Some((kv, m)) => {
            match parse_more_fields_at(s, m) {
                None => None,
                Some((mut rest, end)) => {
                    proof {
                        assert(clamp_to(m as int, k + 1, s@.len() as int) == m as int);
                    }
                    let ghost rm = crate::profile::obj_fields_model(rest@);
                    rest.insert(0, kv);
                    proof {
                        assert(crate::profile::obj_fields_model(rest@) =~= seq![
                            (rest@[0].0@, rest@[0].1.model()),
                        ] + rm);
                    }
                    Some((rest, end))
                },
            }
        },
    }
}

/// Reads what follows an object field.
fn parse_more_fields_at(s: &Vec<char>, i: usize) -> (r: Option<(Vec<(String, PrefValue)>, usize)>)
    requires
        i <= s@.len(),
    ensures
        match r {
            Some(p) => i <= p.1 <= s@.len() && spec_parse_more_fields(s@, i as int) == Some(
                (crate::profile::obj_fields_model(p.0@), p.1 as int),
            ),
            None => spec_parse_more_fields(s@, i as int) is None,
        },
    decreases s@.len() - i, 2int,
{
    let n = s.len();
    let k = skip_ws(s, i);
    if k >= n {
        return None;
    }
    if s[k] == '}' {
        let empty: Vec<(String, PrefValue)> = Vec::new();
        proof {
            assert(crate::profile::obj_fields_model(empty@) =~= Seq::<(Seq<char>, ValModel)>::empty());
        }
        return Some((empty, k + 1));
    }
    if s[k] != ',' {
        return None;
    }
    let k2 = skip_ws(s, k + 1);
    proof {
        assert(at_least(spec_skip_ws(s@, k + 1), k + 1) == k2 as int);
    }
    if !(k2 < n && s[k2] == '"') {
        return None;
    }
    match parse_field_at(s, k2) {
        None => None,
        Some((kv, m)) => {
            match parse_more_fields_at(s, m) {
                None => None,
                Some((mut rest, end)) => {
                    proof {
                        assert(clamp_to(m as int, k2 + 1, s@.len() as int) == m as int);
                    }
                    let ghost rm = crate::profile::obj_fields_model(rest@);
                    rest.insert(0, kv);
                    proof {
                        assert(crate::profile::obj_fields_model(rest@) =~= seq![
                            (rest@[0].0@, rest@[0].1.model()),
                        ] + rm);
                    }
                    Some((rest, end))
                },
            }
        },
    }
}

/// Reads a whole preference document.
fn parse_doc(s: &Vec<char>) -> (r: Option<Vec<(String, PrefValue)>>)
    ensures
        match r {
            Some(es) => spec_parse_doc(s@) == Some(crate::profile::obj_fields_model(es@)),
            None => spec_parse_doc(s@) is None,
        },
{
    match parse_value_at(s, 0) {
        None => None,
        Some((v, j)) => {
            match v {
                PrefValue::Obj(es) => {
                    let e = skip_ws(s, j);
                    proof {
                        assert(at_least(spec_skip_ws(s@, j as int), j as int) == e as int);
                        assert(PrefValue::Obj(es).model()->Obj_0 =~= crate::profile::obj_fields_model(es@));
                    }
                    if e >= s.len() {
                        Some(es)
                    } else {
                        None
                    }
                },
                _ => None,
            }
        },
    }
}


/// Appends the document lines for the fields from `from` on.
fn print_doc_fields_into(es: &Vec<(String, PrefValue)>, from: usize, out: &mut Vec<char>)
    ensures
        final(out)@ == old(out)@ + print_doc_fields(
            crate::profile::obj_fields_model(es@),
            from as int,
        ),
    decreases es@.len() - from,
{
    let ghost pre = out@;
    let ghost em = crate::profile::obj_fields_model(es@);
    let n = es.len();
    if from >= n {
        proof {
            assert(pre + print_doc_fields(em, from as int) =~= pre);
        }
        return ;
    }
    proof {
        assert(em[from as int] == (es@[from as int].0@, es@[from as int].1.model()));
    }
    out.push(' ');
    out.push(' ');
    print_string_into(es[from].0.as_str(), out);
    out.push(':');
    out.push(' ');
    print_value_into(&es[from].1, out);
    if from == n - 1 {
        out.push('\n');
        proof {
            assert(out@ =~= pre + print_doc_fields(em, from as int));
        }
    } else {
        out.push(',');
        out.push('\n');
        print_doc_fields_into(es, from + 1, out);
        proof {
            assert(out@ =~= pre + print_doc_fields(em, from as int));
        }
    }
}

/// Writes the whole preference mapping as a document, one entry per line;
/// a blank target path is rejected.
pub fn export_preferences(store: &PrefMap, file_path: &str) -> (r: Result<String, AppError>)
    ensures
        match r {
            Ok(t) => !is_blank(file_path@) && t@ == print_doc(store@),
            Err(e) => e == AppError::Validation && is_blank(file_path@),
        },
{
    if str_is_blank(file_path) {
        return Err(AppError::Validation);
    }
    let entries = store.entries();
    let mut out: Vec<char> = Vec::new();
    out.push('{');
    if entries.len() == 0 {
        out.push('}');
    } else {
        out.push('\n');
        print_doc_fields_into(entries, 0, &mut out);
        out.push('}');
    }
    proof {
        assert(crate::profile::obj_fields_model(entries@) =~= store@);
        assert(out@ =~= print_doc(store@));
    }
    Ok(chars_to_string(&out))
}

/// The mapping that binding each entry in turn builds up: a later entry for
/// a key replaces an earlier one.
pub open spec fn spec_map_of(es: Seq<(Seq<char>, ValModel)>) -> Seq<(Seq<char>, ValModel)>
    decreases es.len(),
{
    if es.len() == 0 {
        Seq::empty()
    } else {
        crate::store::spec_upsert(spec_map_of(es.drop_last()), es.last().0, es.last().1)
    }
}

/// Reads a document and replaces the whole preference mapping with what it
/// holds, reporting the notification owed; a blank source path is rejected,
/// and a malformed document refused untouched.
pub fn import_preferences(store: &mut PrefMap, file_path: &str, content: &str) -> (r: Result<
    PrefEvent,
    AppError,
>)
    requires
        old(store).wf(),
    ensures
        final(store).wf(),
        match r {
            Ok(ev) => !is_blank(file_path@) && spec_parse_doc(content@) is Some && final(store)@
                =~= spec_map_of(spec_parse_doc(content@)->0) && (ev matches PrefEvent::Replaced {
                preferences: p } && p@ =~= final(store)@),
            Err(e) => *final(store) == *old(store) && (if is_blank(file_path@) {
                e == AppError::Validation
            } else {
                e == AppError::Parse && spec_parse_doc(content@) is None
            }),
        },
{
    if str_is_blank(file_path) {
        return Err(AppError::Validation);
    }
    let chars = str_chars(content);
    let es = match parse_doc(&chars) {
        None => {
            return Err(AppError::Parse);
        },
        Some(es) => es,
    };
    let ghost em = crate::profile::obj_fields_model(es@);
    let mut m = PrefMap::new();
    let n = es.len();
    let mut i: usize = 0;
    while i < n
        invariant
            i <= n == es@.len(),
            em == crate::profile::obj_fields_model(es@),
            m.wf(),
            m@ =~= spec_map_of(em.take(i as int)),
        decreases n - i,
    {
        let k = es[i].0.clone();
        let v = es[i].1.deep_clone();
        proof {
            assert(em[i as int] == (es@[i as int].0@, es@[i as int].1.model()));
        }
        m.set_entry(k, v);
        proof {
            assert(em.take(i + 1).drop_last() =~= em.take(i as int));
            assert(em.take(i + 1).last() == em[i as int]);
        }
        i = i + 1;
    }
    proof {
        assert(em.take(n as int) =~= em);
    }
    let ev = store.save_all_preferences(m);
    Ok(ev)
}

/// Binding entries whose keys are all distinct builds exactly those entries,
/// in order.
pub proof fn lemma_map_of_unique(es: Seq<(Seq<char>, ValModel)>)
    requires
        keys_unique(es),
    ensures
        spec_map_of(es) =~= es,
    decreases es.len(),
{
    if es.len() > 0 {
        assert(keys_unique(es.drop_last())) by {
            assert(forall|i: int, j: int|
                0 <= i < j < es.drop_last().len() ==> (#[trigger] es.drop_last()[i]) == es[i]
                    && (#[trigger] es.drop_last()[j]) == es[j]);
        }
        lemma_map_of_unique(es.drop_last());
        assert(forall|j: int|
            0 <= j < es.drop_last().len() ==> (#[trigger] es.drop_last()[j]).0 != es.last().0);
        crate::store::lemma_upsert_absent(es.drop_last(), es.last().0, es.last().1);
        assert(es.drop_last().push(es.last()) =~= es);
    }
}


/// Skipping whitespace from `i` stops exactly at `k`.
proof fn lemma_skip_ws_at(s: Seq<char>, i: int, k: int)
    requires
        0 <= i <= k <= s.len(),
        forall|j: int| i <= j < k ==> is_json_ws(#[trigger] s[j]),
        k < s.len() ==> !is_json_ws(s[k]),
    ensures
        spec_skip_ws(s, i) == k,
    decreases k - i,
{
    if i < k {
        lemma_skip_ws_at(s, i + 1, k);
    }
}

/// Reading back the hexadecimal digit of `d` gives `d`.
proof fn lemma_hex_char_val(d: nat)
    requires
        d < 16,
    ensures
        spec_hex_val(hex_char(d)) == Some(d as u32),
{
}

/// The digit run from `a` stops exactly at `e`.
proof fn lemma_num_end_at(s: Seq<char>, a: int, e: int)
    requires
        0 <= a <= e <= s.len(),
        forall|j: int| a <= j < e ==> is_digit(#[trigger] s[j]),
        e < s.len() ==> !is_digit(s[e]),
    ensures
        spec_num_end(s, a) == e,
    decreases e - a,
{
    if a < e {
        lemma_num_end_at(s, a + 1, e);
    }
}

/// A printed value starts with something that is neither whitespace nor a
/// closing token nor a comma.
proof fn lemma_print_head(v: ValModel)
    ensures
        print_compact(v).len() > 0,
        !is_json_ws(print_compact(v)[0]),
        print_compact(v)[0] != ']',
        print_compact(v)[0] != '}',
        print_compact(v)[0] != ',',
        print_compact(v)[0] != ':',
{
    match v {
        ValModel::Num(n) => {
            crate::numtext::lemma_dec_of_digits(if n < 0 {
                (-n) as nat
            } else {
                n as nat
            });
            if n >= 0 {
                assert(int_dec_of(n)[0] == crate::numtext::dec_of(n as nat)[0]);
                assert(is_digit(int_dec_of(n)[0]));
            }
        },
        _ => {},
    }
}


/// Reading an escaped text followed by a closing quote yields the text.
proof fn lemma_parse_string_print(s: Seq<char>, i: int, t: Seq<char>)
    requires
        0 <= i,
        i + esc_string(t).len() + 1 <= s.len(),
        s.subrange(i, i + esc_string(t).len() + 1) =~= esc_string(t) + seq!['"'],
    ensures
        spec_parse_string(s, i) == Some((t, i + esc_string(t).len() + 1)),
    decreases t.len(),
{
    broadcast use vstd::utf8::char_u32_cast;

    let end = i + esc_string(t).len() + 1;
    if t.len() == 0 {
        assert(esc_string(t).len() == 0);
        assert(s.subrange(i, end)[0] == s[i]);
        assert((esc_string(t) + seq!['"'])[0] == '"');
        assert(s[i] == '"');
    } else {
        let c = t[0];
        let t2 = t.drop_first();
        let ec = esc_char(c);
        assert(esc_string(t) == ec + esc_string(t2));
        let ln = ec.len();
        assert forall|j: int| 0 <= j < end - i implies #[trigger] s[i + j] == (esc_string(t)
            + seq!['"'])[j] by {
            assert(s.subrange(i, end)[j] == s[i + j]);
        }
        assert forall|j: int| 0 <= j < ln implies #[trigger] s[i + j] == ec[j] by {
            assert((esc_string(t) + seq!['"'])[j] == esc_string(t)[j]);
            assert(esc_string(t)[j] == ec[j]);
        }
        assert(s.subrange(i + ln, end) =~= esc_string(t2) + seq!['"']) by {
            assert forall|j: int| 0 <= j < end - (i + ln) implies s.subrange(i + ln, end)[j] == (
            esc_string(t2) + seq!['"'])[j] by {
                assert(s.subrange(i + ln, end)[j] == s[i + ln + j]);
                assert((esc_string(t) + seq!['"'])[ln + j] == (esc_string(t2) + seq!['"'])[j]);
            }
        }
        lemma_parse_string_print(s, i + ln, t2);
        assert(s[i + 0] == ec[0]);
        assert(s[i] == ec[0]);
        if ln >= 2 {
            assert(s[i + 1] == ec[1]);
        }
        let u = c as u32;
        if c == '"' || c == '\\' {
            assert(s[i] == '\\' && s[i + 1] == c);
            assert(seq![c] + t2 =~= t);
        } else if u == 0x8 || u == 0xc || u == 0xa || u == 0xd || u == 0x9 {
            assert(s[i] == '\\');
            let e = s[i + 1];
            assert(e == ec[1]);
            assert(seq![c] + t2 =~= t);
            assert(e == 'b' || e == 'f' || e == 'n' || e == 'r' || e == 't');
            let d = if e == 'b' {
                8u32 as char
            } else if e == 'f' {
                12u32 as char
            } else if e == 'n' {
                10u32 as char
            } else if e == 'r' {
                13u32 as char
            } else {
                9u32 as char
            };
            vstd::utf8::char_u32_cast(c, u);
            assert(d == c);
        } else if u < 0x20 {
            assert(s[i] == '\\' && s[i + 1] == 'u' && s[i + 2] == '0' && s[i + 3] == '0');
            assert(s[i + 4] == hex_char((u / 16) as nat));
            assert(s[i + 5] == hex_char((u % 16) as nat));
            lemma_hex_char_val((u / 16) as nat);
            lemma_hex_char_val((u % 16) as nat);
            assert(spec_hex_val(s[i + 2]) == Some(0u32));
            assert(spec_hex_val(s[i + 3]) == Some(0u32));
            vstd::arithmetic::div_mod::lemma_fundamental_div_mod(u as int, 16);
            let code = ((0u32 * 4096 + 0u32 * 256 + (u / 16) * 16 + u % 16) as u32);
            assert(code == u);
            vstd::utf8::char_u32_cast(c, u);
            assert((code as char) == c);
            assert(seq![c] + t2 =~= t);
            assert(i + 6 <= s.len());
        } else {
            assert(s[i] == c);
            assert(c != '"' && c != '\\' && !((c as u32) < 0x20));
            assert(seq![c] + t2 =~= t);
        }
    }
}


/// A character that may lawfully follow a printed value.
pub open spec fn safe_after(c: char) -> bool {
    !is_digit(c) && c != '.' && c != 'e' && c != 'E'
}

/// A stretch known to hold `x + y` holds `x` and then `y`.
proof fn lemma_subrange_split(s: Seq<char>, i: int, x: Seq<char>, y: Seq<char>)
    requires
        0 <= i,
        i + x.len() + y.len() <= s.len(),
        s.subrange(i, i + x.len() + y.len()) =~= x + y,
    ensures
        s.subrange(i, i + x.len()) =~= x,
        s.subrange(i + x.len(), i + x.len() + y.len()) =~= y,
        forall|j: int| 0 <= j < x.len() + y.len() ==> #[trigger] s[i + j] == (x + y)[j],
{
    assert forall|j: int| 0 <= j < x.len() + y.len() implies #[trigger] s[i + j] == (x + y)[j] by {
        assert(s.subrange(i, i + x.len() + y.len())[j] == s[i + j]);
    }
    assert forall|j: int| 0 <= j < x.len() implies s.subrange(i, i + x.len())[j] == x[j] by {
        assert(s.subrange(i, i + x.len())[j] == s[i + j]);
        assert((x + y)[j] == x[j]);
    }
    assert forall|j: int| 0 <= j < y.len() implies s.subrange(
        i + x.len(),
        i + x.len() + y.len(),
    )[j] == y[j] by {
        assert(s.subrange(i + x.len(), i + x.len() + y.len())[j] == s[i + x.len() + j]);
        assert((x + y)[x.len() + j] == y[j]);
    }
}

/// Reading a printed value back yields the value.
#[verifier::rlimit(100)]
#[verifier::spinoff_prover]
proof fn lemma_parse_print_value(s: Seq<char>, i: int, v: ValModel)
    requires
        0 <= i,
        crate::value::model_wf(v),
        i + print_compact(v).len() <= s.len(),
        s.subrange(i, i + print_compact(v).len()) =~= print_compact(v),
        i + print_compact(v).len() < s.len() ==> safe_after(s[i + print_compact(v).len()]),
    ensures
        spec_parse_value(s, i) == Some((v, i + print_compact(v).len())),
    decreases v, 0int,
{
    let pc = print_compact(v);
    let end = i + pc.len();
    assert forall|j: int| 0 <= j < pc.len() implies #[trigger] s[i + j] == pc[j] by {
        assert(s.subrange(i, end)[j] == s[i + j]);
    }
    lemma_print_head(v);
    assert(s[i + 0] == pc[0]);
    assert(s[i] == pc[0]);
    lemma_skip_ws_at(s, i, i);
    match v {
        ValModel::Null => {
            assert(s[i + 1] == 'u' && s[i + 2] == 'l' && s[i + 3] == 'l');
        },
        ValModel::Bool(b) => {
            if b {
                assert(s[i + 1] == 'r' && s[i + 2] == 'u' && s[i + 3] == 'e');
            } else {
                assert(s[i + 1] == 'a' && s[i + 2] == 'l' && s[i + 3] == 's' && s[i + 4] == 'e');
            }
        },
        ValModel::Num(n) => {
            let mag: nat = if n < 0 {
                (-n) as nat
            } else {
                n as nat
            };
            crate::numtext::lemma_dec_of_digits(mag);
            if n < 0 {
                assert(s[i] == '-');
                assert forall|j: int| i + 1 <= j < end implies is_digit(#[trigger] s[j]) by {
                    assert(s[j] == pc[j - i]);
                    assert(pc[j - i] == crate::numtext::dec_of(mag)[j - i - 1]);
                }
                lemma_num_end_at(s, i + 1, end);
                assert(spec_num_end(s, i + 1) == end);
                assert(at_least(end, i + 1) == end);
            } else {
                assert forall|j: int| i <= j < end implies is_digit(#[trigger] s[j]) by {
                    assert(s[j] == pc[j - i]);
                }
                lemma_num_end_at(s, i, end);
                assert(at_least(end, i + 1) == end);
            }
            assert(s.subrange(i, end) =~= int_dec_of(n as int));
            crate::numtext::lemma_int_dec_round_trip(n as int);
            assert(end < s.len() ==> !(s[end] == '.' || s[end] == 'e' || s[end] == 'E'));
        },
        ValModel::Str(t) => {
            assert(s[i] == '"');
            lemma_subrange_split(s, i, seq!['"'], esc_string(t) + seq!['"']);
            lemma_parse_string_print(s, i + 1, t);
        },
        ValModel::Arr(items) => {
            assert(s[i] == '[');
            lemma_subrange_split(s, i, seq!['['], print_items(items, 0) + seq![']']);
            lemma_parse_print_items(s, i + 1, items, 0);
            assert(items.skip(0) =~= items);
        },
        ValModel::Obj(es) => {
            assert(s[i] == '{');
            lemma_subrange_split(s, i, seq!['{'], print_fields(es, 0) + seq!['}']);
            lemma_parse_print_fields(s, i + 1, es, 0);
            assert(es.skip(0) =~= es);
        },
    }
}

/// Reading printed items up to a closing bracket yields the items.
proof fn lemma_parse_print_items(s: Seq<char>, a: int, items: Seq<ValModel>, from: int)
    requires
        0 <= a,
        0 <= from <= items.len(),
        forall|k: int| from <= k < items.len() ==> crate::value::model_wf(#[trigger] items[k]),
        a + print_items(items, from).len() + 1 <= s.len(),
        s.subrange(a, a + print_items(items, from).len() + 1) =~= print_items(items, from)
            + seq![']'],
    ensures
        spec_parse_items(s, a) == Some((items.skip(from), a + print_items(items, from).len() + 1)),
    decreases items, items.len() - from, 1int,
{
    let endp = a + print_items(items, from).len() + 1;
    if from >= items.len() {
        assert(print_items(items, from).len() == 0);
        assert(s.subrange(a, a + 1)[0] == s[a]);
        assert((print_items(items, from) + seq![']'])[0] == ']');
        assert(s[a] == ']');
        lemma_skip_ws_at(s, a, a);
        assert(items.skip(from) =~= Seq::<ValModel>::empty());
    } else {
        let pc = print_compact(items[from]);
        let tail = print_more_items(items, from + 1) + seq![']'];
        assert(print_items(items, from) + seq![']'] =~= pc + tail);
        lemma_subrange_split(s, a, pc, tail);
        lemma_print_head(items[from]);
        assert(s[a + 0] == pc[0]);
        assert(s[a] == pc[0]);
        lemma_skip_ws_at(s, a, a);
        assert(s[a] != ']');
        let m = a + pc.len();
        assert(m < s.len());
        assert(s[m + 0] == tail[0]);
        assert(s[m] == tail[0]);
        if from + 1 < items.len() {
            assert(tail[0] == ',');
        } else {
            assert(tail[0] == ']');
        }
        assert(safe_after(s[m]));
        lemma_parse_print_value(s, a, items[from]);
        lemma_parse_print_more_items(s, m, items, from + 1);
        assert(clamp_to(m, a + 1, s.len() as int) == m);
        assert(seq![items[from]] + items.skip(from + 1) =~= items.skip(from));
    }
}

/// Reading comma-led printed items up to a closing bracket yields the items.
proof fn lemma_parse_print_more_items(s: Seq<char>, a: int, items: Seq<ValModel>, from: int)
    requires
        0 <= a,
        0 <= from <= items.len(),
        forall|k: int| from <= k < items.len() ==> crate::value::model_wf(#[trigger] items[k]),
        a + print_more_items(items, from).len() + 1 <= s.len(),
        s.subrange(a, a + print_more_items(items, from).len() + 1) =~= print_more_items(
            items,
            from,
        ) + seq![']'],
    ensures
        spec_parse_more_items(s, a) == Some(
            (items.skip(from), a + print_more_items(items, from).len() + 1),
        ),
    decreases items, items.len() - from, 2int,
{
    let endp = a + print_more_items(items, from).len() + 1;
    if from >= items.len() {
        assert(print_more_items(items, from).len() == 0);
        assert(s.subrange(a, a + 1)[0] == s[a]);
        assert((print_more_items(items, from) + seq![']'])[0] == ']');
        assert(s[a] == ']');
        lemma_skip_ws_at(s, a, a);
        assert(items.skip(from) =~= Seq::<ValModel>::empty());
    } else {
        let pc = print_compact(items[from]);
        let tail = print_more_items(items, from + 1) + seq![']'];
        assert(print_more_items(items, from) + seq![']'] =~= seq![','] + (pc + tail));
        lemma_subrange_split(s, a, seq![','], pc + tail);
        assert(s[a + 0] == ',');
        assert(s[a] == ',');
        lemma_skip_ws_at(s, a, a);
        lemma_subrange_split(s, a + 1, pc, tail);
        lemma_print_head(items[from]);
        let m = a + 1 + pc.len();
        assert(m < s.len());
        assert(s[m + 0] == tail[0]);
        assert(s[m] == tail[0]);
        if from + 1 < items.len() {
            assert(tail[0] == ',');
        } else {
            assert(tail[0] == ']');
        }
        assert(safe_after(s[m]));
        lemma_parse_print_value(s, a + 1, items[from]);
        lemma_parse_print_more_items(s, m, items, from + 1);
        assert(clamp_to(m, a + 1, s.len() as int) == m);
        assert(seq![items[from]] + items.skip(from + 1) =~= items.skip(from));
    }
}

/// Reading printed fields up to a closing brace yields the fields.
proof fn lemma_parse_print_fields(s: Seq<char>, a: int, es: Seq<(Seq<char>, ValModel)>, from: int)
    requires
        0 <= a,
        0 <= from <= es.len(),
        forall|k: int| from <= k < es.len() ==> crate::value::model_wf((#[trigger] es[k]).1),
        a + print_fields(es, from).len() + 1 <= s.len(),
        s.subrange(a, a + print_fields(es, from).len() + 1) =~= print_fields(es, from)
            + seq!['}'],
    ensures
        spec_parse_fields(s, a) == Some((es.skip(from), a + print_fields(es, from).len() + 1)),
    decreases es, es.len() - from, 1int,
{
    let endp = a + print_fields(es, from).len() + 1;
    if from >= es.len() {
        assert(print_fields(es, from).len() == 0);
        assert(s.subrange(a, a + 1)[0] == s[a]);
        assert((print_fields(es, from) + seq!['}'])[0] == '}');
        assert(s[a] == '}');
        lemma_skip_ws_at(s, a, a);
        assert(es.skip(from) =~= Seq::<(Seq<char>, ValModel)>::empty());
    } else {
        let key = es[from].0;
        let pv = es[from].1;
        let field = print_string(key) + seq![':'] + print_compact(pv);
        let tail = print_more_fields(es, from + 1) + seq!['}'];
        assert(print_fields(es, from) + seq!['}'] =~= field + tail);
        lemma_subrange_split(s, a, field, tail);
        assert(field[0] == '"');
        assert(s[a + 0] == field[0]);
        assert(s[a] == '"');
        lemma_skip_ws_at(s, a, a);
        let m = a + field.len();
        assert(m < s.len());
        assert(s[m + 0] == tail[0]);
        assert(s[m] == tail[0]);
        if from + 1 < es.len() {
            assert(tail[0] == ',');
        } else {
            assert(tail[0] == '}');
        }
        lemma_parse_print_field_at(s, a, key, pv, s[m]);
        lemma_parse_print_more_fields(s, m, es, from + 1);
        assert(clamp_to(m, a + 1, s.len() as int) == m);
        assert(seq![es[from]] + es.skip(from + 1) =~= es.skip(from));
        assert((key, pv) == es[from]);
    }
}

/// Reading one printed `"key":value` field yields the field.
proof fn lemma_parse_print_field_at(s: Seq<char>, q: int, key: Seq<char>, pv: ValModel, f: char)
    requires
        0 <= q,
        crate::value::model_wf(pv),
        q + print_string(key).len() + 1 + print_compact(pv).len() <= s.len(),
        s.subrange(q, q + print_string(key).len() + 1 + print_compact(pv).len()) =~= print_string(
            key,
        ) + seq![':'] + print_compact(pv),
        ({
            let fend = q + print_string(key).len() + 1 + print_compact(pv).len();
            fend < s.len() ==> (safe_after(s[fend]) && !is_json_ws(s[fend]) && s[fend] != ':')
        }),
    ensures
        spec_parse_field_at(s, q) == Some(
            ((key, pv), q + print_string(key).len() + 1 + print_compact(pv).len()),
        ),
    decreases pv, 1int,
{
    let ps = print_string(key);
    let fend = q + ps.len() + 1 + print_compact(pv).len();
    assert(ps + seq![':'] + print_compact(pv) =~= ps + (seq![':'] + print_compact(pv)));
    lemma_subrange_split(s, q, ps, seq![':'] + print_compact(pv));
    assert(ps =~= seq!['"'] + (esc_string(key) + seq!['"']));
    lemma_subrange_split(s, q, seq!['"'], esc_string(key) + seq!['"']);
    lemma_parse_string_print(s, q + 1, key);
    let m = q + ps.len();
    lemma_subrange_split(s, m, seq![':'], print_compact(pv));
    assert(s[m + 0] == ':');
    assert(s[m] == ':');
    lemma_skip_ws_at(s, m, m);
    assert(at_least(m, q + 1) == m);
    assert(at_least(spec_skip_ws(s, m), m) == m);
    lemma_parse_print_value(s, m + 1, pv);
}

/// Reading comma-led printed fields up to a closing brace yields the fields.
proof fn lemma_parse_print_more_fields(
    s: Seq<char>,
    a: int,
    es: Seq<(Seq<char>, ValModel)>,
    from: int,
)
    requires
        0 <= a,
        0 <= from <= es.len(),
        forall|k: int| from <= k < es.len() ==> crate::value::model_wf((#[trigger] es[k]).1),
        a + print_more_fields(es, from).len() + 1 <= s.len(),
        s.subrange(a, a + print_more_fields(es, from).len() + 1) =~= print_more_fields(es, from)
            + seq!['}'],
    ensures
        spec_parse_more_fields(s, a) == Some(
            (es.skip(from), a + print_more_fields(es, from).len() + 1),
        ),
    decreases es, es.len() - from, 2int,
{
    let endp = a + print_more_fields(es, from).len() + 1;
    if from >= es.len() {
        assert(print_more_fields(es, from).len() == 0);
        assert(s.subrange(a, a + 1)[0] == s[a]);
        assert((print_more_fields(es, from) + seq!['}'])[0] == '}');
        assert(s[a] == '}');
        lemma_skip_ws_at(s, a, a);
        assert(es.skip(from) =~= Seq::<(Seq<char>, ValModel)>::empty());
    } else {
        let key = es[from].0;
        let pv = es[from].1;
        let field = print_string(key) + seq![':'] + print_compact(pv);
        let tail = print_more_fields(es, from + 1) + seq!['}'];
        assert(print_more_fields(es, from) + seq!['}'] =~= seq![','] + (field + tail));
        lemma_subrange_split(s, a, seq![','], field + tail);
        assert(s[a + 0] == ',');
        assert(s[a] == ',');
        lemma_skip_ws_at(s, a, a);
        lemma_subrange_split(s, a + 1, field, tail);
        assert(field[0] == '"');
        assert(s[(a + 1) + 0] == field[0]);
        assert(s[a + 1] == '"');
        lemma_skip_ws_at(s, a + 1, a + 1);
        let m = a + 1 + field.len();
        assert(m < s.len());
        assert(s[m + 0] == tail[0]);
        assert(s[m] == tail[0]);
        if from + 1 < es.len() {
            assert(tail[0] == ',');
        } else {
            assert(tail[0] == '}');
        }
        lemma_parse_print_field_at(s, a + 1, key, pv, s[m]);
        lemma_parse_print_more_fields(s, m, es, from + 1);
        assert(clamp_to(m, a + 1 + 1, s.len() as int) == m);
        assert(seq![es[from]] + es.skip(from + 1) =~= es.skip(from));
        assert((key, pv) == es[from]);
    }
}


/// Leading whitespace does not change what a value read yields.
proof fn lemma_parse_value_after_ws(s: Seq<char>, i: int, w: int)
    requires
        0 <= i <= w <= s.len(),
        forall|j: int| i <= j < w ==> is_json_ws(#[trigger] s[j]),
        w < s.len(),
        !is_json_ws(s[w]),
    ensures
        spec_parse_value(s, i) == spec_parse_value(s, w),
{
    lemma_skip_ws_at(s, i, w);
    lemma_skip_ws_at(s, w, w);
    assert(at_least(spec_skip_ws(s, i), i) == w);
    assert(at_least(spec_skip_ws(s, w), w) == w);
}

/// Reading one printed document field, `"key": value`, yields the field.
proof fn lemma_parse_doc_field_at(s: Seq<char>, q: int, key: Seq<char>, pv: ValModel)
    requires
        0 <= q,
        crate::value::model_wf(pv),
        q + print_string(key).len() + 2 + print_compact(pv).len() < s.len(),
        s.subrange(q, q + print_string(key).len() + 2 + print_compact(pv).len()) =~= print_string(
            key,
        ) + seq![':', ' '] + print_compact(pv),
        ({
            let fend = q + print_string(key).len() + 2 + print_compact(pv).len();
            s[fend] == ',' || s[fend] == '\n'
        }),
    ensures
        spec_parse_field_at(s, q) == Some(
            ((key, pv), q + print_string(key).len() + 2 + print_compact(pv).len()),
        ),
{
    let ps = print_string(key);
    let fend = q + ps.len() + 2 + print_compact(pv).len();
    assert(ps + seq![':', ' '] + print_compact(pv) =~= ps + (seq![':', ' '] + print_compact(pv)));
    lemma_subrange_split(s, q, ps, seq![':', ' '] + print_compact(pv));
    assert(ps =~= seq!['"'] + (esc_string(key) + seq!['"']));
    lemma_subrange_split(s, q, seq!['"'], esc_string(key) + seq!['"']);
    lemma_parse_string_print(s, q + 1, key);
    let m = q + ps.len();
    lemma_subrange_split(s, m, seq![':', ' '], print_compact(pv));
    assert(s[m + 0] == ':');
    assert(s[m] == ':');
    assert(s[m + 1] == ' ');
    lemma_skip_ws_at(s, m, m);
    assert(at_least(m, q + 1) == m);
    assert(at_least(spec_skip_ws(s, m), m) == m);
    lemma_print_head(pv);
    assert(s.subrange(m + 2, fend) =~= print_compact(pv));
    assert forall|j: int| 0 <= j < print_compact(pv).len() implies #[trigger] s[m + 2 + j]
        == print_compact(pv)[j] by {
        assert(s.subrange(m + 2, fend)[j] == s[m + 2 + j]);
    }
    assert(s[m + 2 + 0] == print_compact(pv)[0]);
    assert(s[m + 2] == print_compact(pv)[0]);
    lemma_parse_value_after_ws(s, m + 1, m + 2);
    assert(safe_after(s[fend]));
    lemma_parse_print_value(s, m + 2, pv);
}

/// What the document holds after a field: its closing line, or a comma and
/// the lines that follow.
pub open spec fn doc_tail(m: Seq<(Seq<char>, ValModel)>, from: int) -> Seq<char> {
    if from >= m.len() {
        seq!['\n', '}']
    } else {
        seq![',', '\n'] + print_doc_fields(m, from) + seq!['}']
    }
}

/// One printed entry and everything after it: the field text, then the
/// document's tail.
pub open spec fn doc_entry_text(m: Seq<(Seq<char>, ValModel)>, from: int) -> Seq<char> {
    print_string(m[from].0) + seq![':', ' '] + print_compact(m[from].1) + doc_tail(m, from + 1)
}

/// The document tail before an entry is a comma, a line break and the
/// indent, then the entry.
proof fn lemma_doc_tail_shape(m: Seq<(Seq<char>, ValModel)>, from: int)
    requires
        0 <= from < m.len(),
    ensures
        doc_tail(m, from) =~= seq![',', '\n', ' ', ' '] + doc_entry_text(m, from),
{
    if from == m.len() - 1 {
        assert(print_doc_fields(m, from) =~= (seq![' ', ' '] + print_string(m[from].0) + seq![
            ':',
            ' ',
        ] + print_compact(m[from].1)) + seq!['\n']);
    } else {
        assert(print_doc_fields(m, from) =~= (seq![' ', ' '] + print_string(m[from].0) + seq![
            ':',
            ' ',
        ] + print_compact(m[from].1)) + (seq![',', '\n'] + print_doc_fields(m, from + 1)));
    }
}

/// Reading one printed entry yields its field and then the rest of the
/// mapping.
proof fn lemma_parse_doc_entry(s: Seq<char>, q: int, m: Seq<(Seq<char>, ValModel)>, from: int)
    requires
        0 <= q,
        0 <= from < m.len(),
        forall|k: int| from <= k < m.len() ==> crate::value::model_wf((#[trigger] m[k]).1),
        q + doc_entry_text(m, from).len() <= s.len(),
        s.subrange(q, q + doc_entry_text(m, from).len()) =~= doc_entry_text(m, from),
    ensures
        ({
            let fend = q + print_string(m[from].0).len() + 2 + print_compact(m[from].1).len();
            spec_parse_field_at(s, q) == Some(((m[from].0, m[from].1), fend))
                && spec_parse_more_fields(s, fend) == Some(
                (m.skip(from + 1), q + doc_entry_text(m, from).len()),
            ) && fend > q
        }),
    decreases m.len() - from, 0int,
{
    let key = m[from].0;
    let pv = m[from].1;
    let field = print_string(key) + seq![':', ' '] + print_compact(pv);
    let tail = doc_tail(m, from + 1);
    assert(doc_entry_text(m, from) =~= field + tail);
    lemma_subrange_split(s, q, field, tail);
    let fend = q + field.len();
    assert(s[fend + 0] == tail[0]);
    assert(s[fend] == tail[0]);
    if from + 1 < m.len() {
        assert(tail[0] == ',');
    } else {
        assert(tail[0] == '\n');
    }
    lemma_parse_doc_field_at(s, q, key, pv);
    lemma_parse_doc_more(s, fend, m, from + 1);
}

/// Reading what follows a document field yields the remaining fields.
proof fn lemma_parse_doc_more(s: Seq<char>, a: int, m: Seq<(Seq<char>, ValModel)>, from: int)
    requires
        0 <= a,
        0 <= from <= m.len(),
        forall|k: int| from <= k < m.len() ==> crate::value::model_wf((#[trigger] m[k]).1),
        a + doc_tail(m, from).len() <= s.len(),
        s.subrange(a, a + doc_tail(m, from).len()) =~= doc_tail(m, from),
    ensures
        spec_parse_more_fields(s, a) == Some((m.skip(from), a + doc_tail(m, from).len())),
    decreases m.len() - from, 1int,
{
    let endp = a + doc_tail(m, from).len();
    if from >= m.len() {
        assert(s.subrange(a, endp)[0] == s[a]);
        assert(s.subrange(a, endp)[1] == s[a + 1]);
        assert(s[a] == '\n');
        assert(s[a + 1] == '}');
        lemma_skip_ws_at(s, a, a + 1);
        assert(m.skip(from) =~= Seq::<(Seq<char>, ValModel)>::empty());
    } else {
        lemma_doc_tail_shape(m, from);
        lemma_subrange_split(s, a, seq![',', '\n', ' ', ' '], doc_entry_text(m, from));
        assert(s[a + 0] == ',');
        assert(s[a] == ',');
        assert(s[a + 1] == '\n' && s[a + 2] == ' ' && s[a + 3] == ' ');
        lemma_skip_ws_at(s, a, a);
        let q = a + 4;
        assert(s[q + 0] == doc_entry_text(m, from)[0]);
        assert(doc_entry_text(m, from)[0] == '"');
        assert(s[q] == '"');
        lemma_skip_ws_at(s, a + 1, q);
        assert(at_least(spec_skip_ws(s, a + 1), a + 1) == q);
        lemma_parse_doc_entry(s, q, m, from);
        let fend = q + print_string(m[from].0).len() + 2 + print_compact(m[from].1).len();
        assert(clamp_to(fend, q + 1, s.len() as int) == fend);
        assert(seq![m[from]] + m.skip(from + 1) =~= m.skip(from));
        assert((m[from].0, m[from].1) == m[from]);
    }
}

/// A nonempty document is its opening line, then the first entry and the
/// rest.
proof fn lemma_doc_shape_start(m: Seq<(Seq<char>, ValModel)>)
    requires
        m.len() > 0,
    ensures
        print_doc(m) =~= seq!['{', '\n', ' ', ' '] + doc_entry_text(m, 0),
        doc_entry_text(m, 0)[0] == '"',
{
    let ps = print_string(m[0].0);
    let pc = print_compact(m[0].1);
    let det = doc_entry_text(m, 0);
    assert(print_doc_fields(m, 0) =~= (seq![' ', ' '] + ps + seq![':', ' '] + pc) + (if m.len()
        == 1 {
        seq!['\n']
    } else {
        seq![',', '\n'] + print_doc_fields(m, 1)
    }));
    if m.len() == 1 {
        assert(det =~= ps + seq![':', ' '] + pc + seq!['\n', '}']);
    } else {
        assert(det =~= ps + seq![':', ' '] + pc + (seq![',', '\n'] + print_doc_fields(m, 1)
            + seq!['}']));
    }
    assert(print_doc(m) =~= seq!['{', '\n', ' ', ' '] + det);
    assert(det[0] == ps[0]);
}

/// What one reading step yields, assembled from its parts.
proof fn lemma_parse_fields_from_facts(
    s: Seq<char>,
    m: Seq<(Seq<char>, ValModel)>,
    fend: int,
    endp: int,
)
    requires
        m.len() > 0,
        spec_skip_ws(s, 1) == 4,
        4 < s.len(),
        s[4] == '"',
        s[4] != '}',
        spec_parse_field_at(s, 4) == Some(((m[0].0, m[0].1), fend)),
        4 < fend,
        fend <= s.len(),
        spec_parse_more_fields(s, fend) == Some((m.skip(1), endp)),
    ensures
        spec_parse_fields(s, 1) == Some((m, endp)),
{
    assert(at_least(spec_skip_ws(s, 1), 1) == 4);
    assert(clamp_to(fend, 5, s.len() as int) == fend);
    assert(seq![m[0]] + m.skip(1) =~= m);
    assert((m[0].0, m[0].1) == m[0]);
}

/// The opening of a document: a brace, a line break and the indent, then
/// the first entry.
proof fn lemma_doc_open(s: Seq<char>, det: Seq<char>)
    requires
        s.len() == 4 + det.len(),
        s =~= seq!['{', '\n', ' ', ' '] + det,
        det.len() > 0,
        det[0] == '"',
    ensures
        s[0] == '{',
        s[4] == '"',
        spec_skip_ws(s, 1) == 4,
        s.subrange(4, s.len() as int) =~= det,
{
    assert(s.subrange(0, s.len() as int) =~= s);
    lemma_subrange_split(s, 0, seq!['{', '\n', ' ', ' '], det);
    assert(s[0int + 0] == '{' && s[0int + 1] == '\n' && s[0int + 2] == ' ' && s[0int + 3] == ' ');
    assert(s[1] == '\n' && s[2] == ' ' && s[3] == ' ');
    assert(s[0int + 4] == det[0]);
    assert(s[4] == '"');
    lemma_skip_ws_at(s, 1, 4);
}

/// Reading a nonempty printed document's fields yields the whole mapping.
#[verifier::rlimit(100)]
#[verifier::spinoff_prover]
proof fn lemma_parse_doc_nonempty(m: Seq<(Seq<char>, ValModel)>)
    requires
        m.len() > 0,
        forall|k: int| 0 <= k < m.len() ==> crate::value::model_wf((#[trigger] m[k]).1),
    ensures
        print_doc(m)[0] == '{',
        spec_parse_fields(print_doc(m), 1) == Some((m, print_doc(m).len() as int)),
{
    let s = print_doc(m);
    let det = doc_entry_text(m, 0);
    lemma_doc_shape_start(m);
    lemma_doc_open(s, det);
    lemma_parse_doc_entry(s, 4, m, 0);
    let fend: int = 4int + print_string(m[0].0).len() + 2 + print_compact(m[0].1).len();
    lemma_parse_fields_from_facts(s, m, fend, s.len() as int);
}

/// Reading a printed document yields exactly the mapping that was printed,
/// and binding a mapping whose keys are distinct leaves it as it stands: an
/// export followed by an import reproduces the preference mapping.
proof fn lemma_parse_doc_empty(m: Seq<(Seq<char>, ValModel)>)
    requires
        m.len() == 0,
    ensures
        spec_parse_doc(print_doc(m)) == Some(m),
{
    let s = print_doc(m);
    assert(s =~= seq!['{', '}']);
    assert(s[0] == '{' && s[1] == '}');
    lemma_skip_ws_at(s, 0, 0);
    lemma_skip_ws_at(s, 1, 1);
    lemma_skip_ws_at(s, 2, 2);
    assert(spec_parse_fields(s, 1) == Some((Seq::<(Seq<char>, ValModel)>::empty(), 2int)));
    assert(m =~= Seq::<(Seq<char>, ValModel)>::empty());
}

#[verifier::rlimit(100)]
#[verifier::spinoff_prover]
pub proof fn lemma_export_import_round_trip(m: Seq<(Seq<char>, ValModel)>)
    requires
        keys_unique(m),
        forall|k: int| 0 <= k < m.len() ==> crate::value::model_wf((#[trigger] m[k]).1),
    ensures
        spec_parse_doc(print_doc(m)) == Some(m),
        spec_map_of(m) =~= m,
{
    lemma_map_of_unique(m);
    let s = print_doc(m);
    if m.len() == 0 {
        lemma_parse_doc_empty(m);
    } else {
        lemma_parse_doc_nonempty(m);
        lemma_skip_ws_at(s, 0, 0);
        lemma_skip_ws_at(s, s.len() as int, s.len() as int);
        assert(spec_parse_value(s, 0) == Some((ValModel::Obj(m), s.len() as int)));
    }
}

} // verus!
