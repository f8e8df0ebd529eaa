use vstd::prelude::*;
use crate::AppError;
use crate::store::{lookup, spec_upsert, PrefEvent, PrefMap};
use crate::text::{chars_eq, chars_to_string, is_blank, is_ws_char, str_chars, str_is_blank,
    sub_vec, ws_char};
use crate::value::{PrefValue, ValModel};

verus! {

/// The two fields a vocabulary card's header carries: the word, and its
/// translations in order.
pub struct VocabularyEntryHeader {
    pub word: String,
    pub translations: Vec<String>,
}

/// Card-session progress: how far through how many cards, where, and when
/// last touched. The index never passes the card count.
pub struct VocabularyProgress {
    pub current_index: u32,
    pub total_cards: u32,
    pub directory_path: String,
    pub last_updated: i64,
}

/// The first position at or after `from` where three dashes stand.
pub open spec fn spec_find_dashes(s: Seq<char>, from: int) -> Option<int>
    decreases s.len() - from,
{
    if from + 3 > s.len() {
        None
    } else if s[from] == '-' && s[from + 1] == '-' && s[from + 2] == '-' {
        Some(from)
    } else {
        spec_find_dashes(s, from + 1)
    }
}

/// The first position at or after `from` holding `c`.
pub open spec fn spec_find_char(s: Seq<char>, from: int, c: char) -> Option<int>
    decreases s.len() - from,
{
    if from >= s.len() {
        None
    } else if s[from] == c {
        Some(from)
    } else {
        spec_find_char(s, from + 1, c)
    }
}

/// A line without its trailing carriage return.
pub open spec fn strip_cr(s: Seq<char>) -> Seq<char> {
    if s.len() > 0 && s.last() == '\r' {
        s.drop_last()
    } else {
        s
    }
}

/// The text from `from` on, split at newlines, each line without its
/// carriage return.
pub open spec fn spec_lines_from(s: Seq<char>, from: int) -> Seq<Seq<char>>
    decreases s.len() - from,
{
    match spec_find_char(s, from, '\n') {
        None => seq![strip_cr(s.subrange(if 0 <= from <= s.len() { from } else { 0 }, s.len() as int))],
        Some(j) => {
            if from <= j < s.len() {
                seq![strip_cr(s.subrange(from, j))] + spec_lines_from(s, j + 1)
            } else {
                seq![]
            }
        },
    }
}

/// The whole text split at newlines.
pub open spec fn spec_lines(s: Seq<char>) -> Seq<Seq<char>> {
    spec_lines_from(s, 0)
}

pub open spec fn spec_trim_start(s: Seq<char>) -> Seq<char>
    decreases s.len(),
{
    if s.len() > 0 && is_ws_char(s[0]) {
        spec_trim_start(s.drop_first())
    } else {
        s
    }
}

pub open spec fn spec_trim_end(s: Seq<char>) -> Seq<char>
    decreases s.len(),
{
    if s.len() > 0 && is_ws_char(s.last()) {
        spec_trim_end(s.drop_last())
    } else {
        s
    }
}

/// The text without leading and trailing whitespace.
pub open spec fn spec_trim(s: Seq<char>) -> Seq<char> {
    spec_trim_end(spec_trim_start(s))
}

/// A raw field value: a single scalar, or a list of scalars.
pub enum YamlFieldModel {
    Scalar(Seq<char>),
    List(Seq<Seq<char>>),
}

/// The key and raw value of a header line, when the line carries one at top
/// level: a name before the first colon, neither indented nor a list item.
pub open spec fn spec_key_of(line: Seq<char>) -> Option<(Seq<char>, Seq<char>)> {
    if line.len() > 0 && !is_ws_char(line[0]) && line[0] != '-' {
        match spec_find_char(line, 0, ':') {
            Some(j) => {
                if 0 <= j < line.len() {
                    Some((spec_trim(line.take(j)), spec_trim(line.skip(j + 1))))
                } else {
                    None
                }
            },
            None => None,
        }
    } else {
        None
    }
}

/// The first line that binds `key`.
pub open spec fn spec_field_line(lines: Seq<Seq<char>>, key: Seq<char>, from: int) -> Option<int>
    decreases lines.len() - from,
{
    if from >= lines.len() {
        None
    } else {
        match spec_key_of(lines[from]) {
            Some(kv) => {
                if kv.0 == key {
                    Some(from)
                } else {
                    spec_field_line(lines, key, from + 1)
                }
            },
            None => spec_field_line(lines, key, from + 1),
        }
    }
}

/// Whether a trimmed line is a block list item, `- ` then the item.
pub open spec fn spec_is_item(t: Seq<char>) -> bool {
    t.len() >= 2 && t[0] == '-' && t[1] == ' '
}

/// The block list items standing from line `i` on.
pub open spec fn spec_block_items(lines: Seq<Seq<char>>, i: int) -> Seq<Seq<char>>
    decreases lines.len() - i,
{
    if i < 0 || i >= lines.len() {
        seq![]
    } else {
        let t = spec_trim_start(lines[i]);
        if spec_is_item(t) {
            seq![spec_trim(t.skip(2))] + spec_block_items(lines, i + 1)
        } else {
            seq![]
        }
    }
}

/// The comma-separated pieces of `inner` from `from` on, each trimmed.
pub open spec fn spec_flow_items_from(inner: Seq<char>, from: int) -> Seq<Seq<char>>
    decreases inner.len() - from,
{
    match spec_find_char(inner, from, ',') {
        None => seq![
            spec_trim(
                inner.subrange(
                    if 0 <= from <= inner.len() {
                        from
                    } else {
                        0
                    },
                    inner.len() as int,
                ),
            ),
        ],
        Some(j) => {
            if from <= j < inner.len() {
                seq![spec_trim(inner.subrange(from, j))] + spec_flow_items_from(inner, j + 1)
            } else {
                seq![]
            }
        },
    }
}

/// The comma-separated pieces of a flow list body, each trimmed.
pub open spec fn spec_flow_items(inner: Seq<char>) -> Seq<Seq<char>> {
    spec_flow_items_from(inner, 0)
}

/// What a raw field value stands for: a flow list in brackets, a block list
/// on the following lines when the value is empty, else the scalar itself.
pub open spec fn spec_field_value(lines: Seq<Seq<char>>, i: int, raw: Seq<char>) -> Option<
    YamlFieldModel,
> {
    if raw.len() == 0 {
        Some(YamlFieldModel::List(spec_block_items(lines, i + 1)))
    } else if raw[0] == '[' {
        if raw.len() >= 2 && raw.last() == ']' {
            if spec_trim(raw.subrange(1, raw.len() - 1)).len() == 0 {
                Some(YamlFieldModel::List(seq![]))
            } else {
                Some(YamlFieldModel::List(spec_flow_items(raw.subrange(1, raw.len() - 1))))
            }
        } else {
            None
        }
    } else {
        Some(YamlFieldModel::Scalar(raw))
    }
}

pub open spec fn digits_range(s: Seq<char>, a: int, b: int) -> bool {
    forall|i: int| a <= i < b ==> '0' <= #[trigger] s[i] && s[i] <= '9'
}

/// Whether a plain scalar reads as a number rather than text: an optional
/// sign, then digits, with at most one point among them.
pub open spec fn spec_is_number_scalar(s: Seq<char>) -> bool {
    let o: int = if s.len() > 0 && (s[0] == '-' || s[0] == '+') {
        1
    } else {
        0
    };
    s.len() > o && match spec_find_char(s, o, '.') {
        None => digits_range(s, o, s.len() as int),
        Some(j) => j > o && j + 1 < s.len() && digits_range(s, o, j) && digits_range(
            s,
            j + 1,
            s.len() as int,
        ),
    }
}

/// The text a scalar stands for, or nothing when it reads as a non-string:
/// quotes are stripped; `true`, `false`, `null`, `~`, the empty value and
/// numbers are no text.
pub open spec fn spec_scalar_text(s: Seq<char>) -> Option<Seq<char>> {
    if s.len() >= 2 && (s[0] == '"' && s.last() == '"' || s[0] == '\'' && s.last() == '\'') {
        Some(s.subrange(1, s.len() - 1))
    } else if s.len() == 0 || s == "true"@ || s == "false"@ || s == "null"@ || s == "~"@
        || spec_is_number_scalar(s) {
        None
    } else {
        Some(s)
    }
}

/// The word a parsed field yields: the scalar's text, or the first list
/// element's text.
pub open spec fn spec_word_of(f: YamlFieldModel) -> Option<Seq<char>> {
    match f {
        YamlFieldModel::Scalar(s) => spec_scalar_text(s),
        YamlFieldModel::List(items) => {
            if items.len() > 0 {
                spec_scalar_text(items[0])
            } else {
                None
            }
        },
    }
}

/// The texts of the list elements from `from` on, when every one reads as
/// text.
pub open spec fn spec_translations_from(items: Seq<Seq<char>>, from: int) -> Option<Seq<Seq<char>>>
    decreases items.len() - from,
{
    if from < 0 || from >= items.len() {
        Some(seq![])
    } else {
        match (spec_scalar_text(items[from]), spec_translations_from(items, from + 1)) {
            (Some(t), Some(rest)) => Some(seq![t] + rest),
            _ => None,
        }
    }
}

/// The translations a parsed field yields: every list element's text.
pub open spec fn spec_translations_of(f: YamlFieldModel) -> Option<Seq<Seq<char>>> {
    match f {
        YamlFieldModel::Scalar(_) => None,
        YamlFieldModel::List(items) => spec_translations_from(items, 0),
    }
}

/// The field named `key` in the header text, when it is there and well
/// formed.
pub open spec fn spec_header_field(yaml: Seq<char>, key: Seq<char>) -> Option<YamlFieldModel> {
    let lines = spec_lines(yaml);
    match spec_field_line(lines, key, 0) {
        None => None,
        Some(i) => {
            if 0 <= i < lines.len() {
                match spec_key_of(lines[i]) {
                    Some(kv) => spec_field_value(lines, i, kv.1),
                    None => None,
                }
            } else {
                None
            }
        },
    }
}

/// What extracting the vocabulary fields from a card file yields: the text
/// between the first two dash fences read as a header, its word field taken
/// as text or as a list's first element, its translation field as a list of
/// texts; a missing fence is a layout fault, anything else missing or of the
/// wrong shape a content fault.
pub open spec fn spec_extract(s: Seq<char>) -> Result<(Seq<char>, Seq<Seq<char>>), AppError> {
    match spec_find_dashes(s, 0) {
        None => Err(AppError::Format),
        Some(a) => match spec_find_dashes(s, a + 3) {
            None => Err(AppError::Format),
            Some(b) => {
                if 0 <= a && a + 3 <= b <= s.len() {
                    let yaml = s.subrange(a + 3, b);
                    match (spec_header_field(yaml, "Italian"@), spec_header_field(
                        yaml,
                        "English"@,
                    )) {
                        (Some(fi), Some(fe)) => match (spec_word_of(fi), spec_translations_of(
                            fe,
                        )) {
                            (Some(w), Some(ts)) => Ok((w, ts)),
                            _ => Err(AppError::Parse),
                        },
                        _ => Err(AppError::Parse),
                    }
                } else {
                    Err(AppError::Parse)
                }
            },
        },
    }
}


/// The lines' character sequences, in order.
pub open spec fn lines_model(ls: Seq<Vec<char>>) -> Seq<Seq<char>> {
    Seq::new(
        ls.len(),
        |i: int|
            if 0 <= i < ls.len() {
                ls[i]@
            } else {
                Seq::empty()
            },
    )
}

/// Finds the first dash fence at or after `from`.
fn find_dashes(v: &Vec<char>, from: usize) -> (r: Option<usize>)
    ensures
        match r {
            Some(i) => from <= i && spec_find_dashes(v@, from as int) == Some(i as int) && i + 3
                <= v@.len(),
            None => spec_find_dashes(v@, from as int) is None,
        },
{
    let n = v.len();
    let mut i = from;
    loop
        invariant
            from <= i,
            n == v@.len(),
            spec_find_dashes(v@, from as int) == spec_find_dashes(v@, i as int),
        decreases n - i,
    {
        if i >= n || n - i < 3 {
            return None;
        }
        if v[i] == '-' && v[i + 1] == '-' && v[i + 2] == '-' {
            return Some(i);
        }
        i = i + 1;
    }
}

/// Finds the first `c` at or after `from`.
fn find_char_from(v: &Vec<char>, from: usize, c: char) -> (r: Option<usize>)
    ensures
        match r {
            Some(i) => from <= i && i < v@.len() && spec_find_char(v@, from as int, c) == Some(
                i as int,
            ),
            None => spec_find_char(v@, from as int, c) is None,
        },
{
    let n = v.len();
    let mut i = from;
    loop
        invariant
            from <= i,
            n == v@.len(),
            spec_find_char(v@, from as int, c) == spec_find_char(v@, i as int, c),
        decreases n - i,
    {
        if i >= n {
            return None;
        }
        if v[i] == c {
            return Some(i);
        }
        i = i + 1;
    }
}

proof fn lemma_trim_start_at(s: Seq<char>, a: int)
    requires
        0 <= a <= s.len(),
        forall|j: int| 0 <= j < a ==> is_ws_char(#[trigger] s[j]),
        a < s.len() ==> !is_ws_char(s[a]),
    ensures
        spec_trim_start(s) =~= s.skip(a),
    decreases a,
{
    if a == 0 {
        assert(s.skip(0) =~= s);
    } else {
        lemma_trim_start_at(s.drop_first(), a - 1);
        assert(s.drop_first().skip(a - 1) =~= s.skip(a));
    }
}

proof fn lemma_trim_end_at(s: Seq<char>, b: int)
    requires
        0 <= b <= s.len(),
        forall|j: int| b <= j < s.len() ==> is_ws_char(#[trigger] s[j]),
        b > 0 ==> !is_ws_char(s[b - 1]),
    ensures
        spec_trim_end(s) =~= s.take(b),
    decreases s.len() - b,
{
    if b == s.len() {
        assert(s.take(b) =~= s);
    } else {
        lemma_trim_end_at(s.drop_last(), b);
        assert(s.drop_last().take(b) =~= s.take(b));
    }
}

/// The text without leading whitespace.
fn trim_start_vec(v: &Vec<char>) -> (r: Vec<char>)
    ensures
        r@ == spec_trim_start(v@),
{
    let n = v.len();
    let mut a: usize = 0;
    while a < n && ws_char(v[a])
        invariant
            a <= n == v@.len(),
            forall|j: int| 0 <= j < a ==> is_ws_char(#[trigger] v@[j]),
        decreases n - a,
    {
        a = a + 1;
    }
    proof {
        lemma_trim_start_at(v@, a as int);
        assert(v@.subrange(a as int, n as int) =~= v@.skip(a as int));
    }
    sub_vec(v, a, n)
}

/// The text without leading and trailing whitespace.
fn trim_vec(v: &Vec<char>) -> (r: Vec<char>)
    ensures
        r@ == spec_trim(v@),
{
    let n = v.len();
    let mut a: usize = 0;
    while a < n && ws_char(v[a])
        invariant
            a <= n == v@.len(),
            forall|j: int| 0 <= j < a ==> is_ws_char(#[trigger] v@[j]),
        decreases n - a,
    {
        a = a + 1;
    }
    let mut b: usize = n;
    while b > a && ws_char(v[b - 1])
        invariant
            a <= b <= n == v@.len(),
            forall|j: int| b <= j < n ==> is_ws_char(#[trigger] v@[j]),
        decreases b,
    {
        b = b - 1;
    }
    proof {
        lemma_trim_start_at(v@, a as int);
        let t = v@.skip(a as int);
        assert(forall|j: int|
            b - a <= j < t.len() ==> is_ws_char(#[trigger] t[j]) == is_ws_char(v@[j + a]));
        lemma_trim_end_at(t, b - a);
        assert(t.take(b - a) =~= v@.subrange(a as int, b as int));
    }
    sub_vec(v, a, b)
}

/// Drops a trailing carriage return.
fn strip_cr_vec(line: &mut Vec<char>)
    ensures
        final(line)@ == strip_cr(old(line)@),
{
    let n = line.len();
    if n > 0 {
        let c = line[n - 1];
        if c == '\r' {
            line.pop();
            proof {
                assert(final(line)@ =~= old(line)@.drop_last());
            }
        }
    }
}

/// Splits `v[from..]` into lines.
fn split_lines_from(v: &Vec<char>, from: usize) -> (r: Vec<Vec<char>>)
    requires
        from <= v@.len(),
    ensures
        lines_model(r@) =~= spec_lines_from(v@, from as int),
    decreases v@.len() - from,
{
    let n = v.len();
    match find_char_from(v, from, '\n') {
        None => {
            let mut line = sub_vec(v, from, v.len());
            strip_cr_vec(&mut line);
            let mut r: Vec<Vec<char>> = Vec::new();
            r.push(line);
            r
        },
        Some(j) => {
            let mut line = sub_vec(v, from, j);
            strip_cr_vec(&mut line);
            let mut rest = split_lines_from(v, j + 1);
            let mut r: Vec<Vec<char>> = Vec::new();
            r.push(line);
            r.append(&mut rest);
            proof {
                assert(lines_model(r@) =~= seq![strip_cr(v@.subrange(from as int, j as int))]
                    + spec_lines_from(v@, j + 1));
            }
            r
        },
    }
}

/// Reads a line's key and raw value.
fn key_of(line: &Vec<char>) -> (r: Option<(Vec<char>, Vec<char>)>)
    ensures
        match r {
            Some(kv) => spec_key_of(line@) == Some((kv.0@, kv.1@)),
            None => spec_key_of(line@) is None,
        },
{
    let n = line.len();
    if n == 0 {
        return None;
    }
    let c0 = line[0];
    if ws_char(c0) || c0 == '-' {
        return None;
    }
    match find_char_from(line, 0, ':') {
        None => None,
        Some(j) => {
            let head = sub_vec(line, 0, j);
            let tail = sub_vec(line, j + 1, n);
            let k = trim_vec(&head);
            let w = trim_vec(&tail);
            proof {
                assert(line@.take(j as int) =~= line@.subrange(0, j as int));
                assert(line@.skip(j + 1) =~= line@.subrange(j + 1, n as int));
            }
            Some((k, w))
        },
    }
}

/// Finds the first line binding `key` and hands back its raw value.
fn field_line(lines: &Vec<Vec<char>>, key: &Vec<char>) -> (r: Option<(usize, Vec<char>)>)
    ensures
        match r {
            Some(p) => p.0 < lines@.len() && spec_field_line(lines_model(lines@), key@, 0) == Some(
                p.0 as int,
            ) && (spec_key_of(lines@[p.0 as int]@) matches Some(kv) && kv.1 == p.1@),
            None => spec_field_line(lines_model(lines@), key@, 0) is None,
        },
{
    let ghost lm = lines_model(lines@);
    let n = lines.len();
    let mut i: usize = 0;
    loop
        invariant
            i <= n,
            n == lines@.len(),
            lm == lines_model(lines@),
            spec_field_line(lm, key@, 0) == spec_field_line(lm, key@, i as int),
        decreases n - i,
    {
        if i >= n {
            return None;
        }
        proof {
            assert(lm[i as int] == lines@[i as int]@);
        }
        match key_of(&lines[i]) {
            Some(kv) => {
                if chars_eq(&kv.0, key) {
                    return Some((i, kv.1));
                }
            },
            None => {},
        }
        i = i + 1;
    }
}

/// Collects the block list items standing from line `i` on.
fn block_items(lines: &Vec<Vec<char>>, i: usize) -> (r: Vec<Vec<char>>)
    ensures
        lines_model(r@) =~= spec_block_items(lines_model(lines@), i as int),
    decreases lines@.len() - i,
{
    let n = lines.len();
    if i >= n {
        return Vec::new();
    }
    proof {
        assert(lines_model(lines@)[i as int] == lines@[i as int]@);
    }
    let t = trim_start_vec(&lines[i]);
    let tn = t.len();
    if tn >= 2 && t[0] == '-' && t[1] == ' ' {
        let body = sub_vec(&t, 2, tn);
        let item = trim_vec(&body);
        proof {
            assert(t@.subrange(2, tn as int) =~= t@.skip(2));
        }
        let mut rest = block_items(lines, i + 1);
        let mut r: Vec<Vec<char>> = Vec::new();
        r.push(item);
        r.append(&mut rest);
        proof {
            assert(lines_model(r@) =~= seq![spec_trim(spec_trim_start(lines_model(lines@)[i as int]).skip(2))]
                + spec_block_items(lines_model(lines@), i + 1));
        }
        r
    } else {
        Vec::new()
    }
}

/// Splits a flow list body at commas, from `from` on.
fn flow_items_from(inner: &Vec<char>, from: usize) -> (r: Vec<Vec<char>>)
    requires
        from <= inner@.len(),
    ensures
        lines_model(r@) =~= spec_flow_items_from(inner@, from as int),
    decreases inner@.len() - from,
{
    let n = inner.len();
    match find_char_from(inner, from, ',') {
        None => {
            let piece = sub_vec(inner, from, inner.len());
            let item = trim_vec(&piece);
            let mut r: Vec<Vec<char>> = Vec::new();
            r.push(item);
            r
        },
        Some(j) => {
            let piece = sub_vec(inner, from, j);
            let item = trim_vec(&piece);
            let mut rest = flow_items_from(inner, j + 1);
            let mut r: Vec<Vec<char>> = Vec::new();
            r.push(item);
            r.append(&mut rest);
            proof {
                assert(lines_model(r@) =~= seq![spec_trim(inner@.subrange(from as int, j as int))]
                    + spec_flow_items_from(inner@, j + 1));
            }
            r
        },
    }
}

/// A raw field value, parsed.
pub enum YamlField {
    Scalar(Vec<char>),
    List(Vec<Vec<char>>),
}

impl YamlField {
    pub open spec fn model(self) -> YamlFieldModel {
        match self {
            YamlField::Scalar(v) => YamlFieldModel::Scalar(v@),
            YamlField::List(items) => YamlFieldModel::List(lines_model(items@)),
        }
    }
}

/// Reads the value a field line stands for.
fn field_value(lines: &Vec<Vec<char>>, i: usize, raw: Vec<char>) -> (r: Option<YamlField>)
    ensures
        match r {
            Some(f) => spec_field_value(lines_model(lines@), i as int, raw@) == Some(f.model()),
            None => spec_field_value(lines_model(lines@), i as int, raw@) is None,
        },
{
    let n_lines = lines.len();
    let n = raw.len();
    if n == 0 {
        if i < n_lines {
            Some(YamlField::List(block_items(lines, i + 1)))
        } else {
            // no lines follow the header line, so the block list is empty
            let empty: Vec<Vec<char>> = Vec::new();
            proof {
                assert(lines_model(empty@) =~= spec_block_items(lines_model(lines@), i + 1));
            }
            Some(YamlField::List(empty))
        }
    } else if raw[0] == '[' {
        if n >= 2 && raw[n - 1] == ']' {
            let inner = sub_vec(&raw, 1, n - 1);
            let trimmed = trim_vec(&inner);
            if trimmed.len() == 0 {
                let empty: Vec<Vec<char>> = Vec::new();
                proof {
                    assert(lines_model(empty@) =~= Seq::<Seq<char>>::empty());
                }
                Some(YamlField::List(empty))
            } else {
                Some(YamlField::List(flow_items_from(&inner, 0)))
            }
        } else {
            None
        }
    } else {
        Some(YamlField::Scalar(raw))
    }
}

/// Decides whether `v[a..b]` holds only digits.
fn digits_in(v: &Vec<char>, a: usize, b: usize) -> (r: bool)
    requires
        a <= b <= v@.len(),
    ensures
        r == digits_range(v@, a as int, b as int),
{
    let mut i = a;
    while i < b
        invariant
            a <= i <= b <= v@.len(),
            digits_range(v@, a as int, i as int),
        decreases b - i,
    {
        let c = v[i];
        if !('0' <= c && c <= '9') {
            return false;
        }
        i = i + 1;
    }
    true
}

/// Decides whether a plain scalar reads as a number.
fn is_number_scalar(v: &Vec<char>) -> (r: bool)
    ensures
        r == spec_is_number_scalar(v@),
{
    let n = v.len();
    let o: usize = if n > 0 && (v[0] == '-' || v[0] == '+') {
        1
    } else {
        0
    };
    if n <= o {
        return false;
    }
    match find_char_from(v, o, '.') {
        None => digits_in(v, o, n),
        Some(j) => {
            if j > o && j + 1 < n {
                digits_in(v, o, j) && digits_in(v, j + 1, n)
            } else {
                false
            }
        },
    }
}

/// Reads a scalar's text, or nothing when it stands for a non-string.
fn scalar_text(v: &Vec<char>) -> (r: Option<Vec<char>>)
    ensures
        match r {
            Some(t) => spec_scalar_text(v@) == Some(t@),
            None => spec_scalar_text(v@) is None,
        },
{
    let n = v.len();
    if n >= 2 && (v[0] == '"' && v[n - 1] == '"' || v[0] == '\'' && v[n - 1] == '\'') {
        return Some(sub_vec(v, 1, n - 1));
    }
    if n == 0 {
        return None;
    }
    let t_true = str_chars("true");
    let t_false = str_chars("false");
    let t_null = str_chars("null");
    let t_tilde = str_chars("~");
    if chars_eq(v, &t_true) || chars_eq(v, &t_false) || chars_eq(v, &t_null) || chars_eq(
        v,
        &t_tilde,
    ) {
        return None;
    }
    if is_number_scalar(v) {
        return None;
    }
    Some(sub_vec(v, 0, n))
}

/// The word a parsed field yields.
fn word_of(f: &YamlField) -> (r: Option<Vec<char>>)
    ensures
        match r {
            Some(w) => spec_word_of(f.model()) == Some(w@),
            None => spec_word_of(f.model()) is None,
        },
{
    match f {
        YamlField::Scalar(s) => scalar_text(s),
        YamlField::List(items) => {
            if items.len() > 0 {
                proof {
                    assert(lines_model(items@)[0] == items@[0]@);
                }
                scalar_text(&items[0])
            } else {
                None
            }
        },
    }
}

/// The texts of the list items from `from` on.
fn translations_from(items: &Vec<Vec<char>>, from: usize) -> (r: Option<Vec<Vec<char>>>)
    ensures
        match r {
            Some(ts) => spec_translations_from(lines_model(items@), from as int) == Some(
                lines_model(ts@),
            ),
            None => spec_translations_from(lines_model(items@), from as int) is None,
        },
    decreases items@.len() - from,
{
    let n = items.len();
    if from >= n {
        let empty: Vec<Vec<char>> = Vec::new();
        proof {
            assert(lines_model(empty@) =~= Seq::<Seq<char>>::empty());
        }
        return Some(empty);
    }
    proof {
        assert(lines_model(items@)[from as int] == items@[from as int]@);
    }
    match scalar_text(&items[from]) {
        None => None,
        Some(t) => {
            match translations_from(items, from + 1) {
                None => None,
                Some(mut rest) => {
                    let ghost rest_m = lines_model(rest@);
                    let mut r: Vec<Vec<char>> = Vec::new();
                    r.push(t);
                    r.append(&mut rest);
                    proof {
                        assert(lines_model(r@) =~= seq![spec_scalar_text(
                            lines_model(items@)[from as int],
                        )->0] + rest_m);
                    }
                    Some(r)
                },
            }
        },
    }
}

/// The field named `key` in the header text.
fn header_field(yaml: &Vec<char>, key: &Vec<char>) -> (r: Option<YamlField>)
    ensures
        match r {
            Some(f) => spec_header_field(yaml@, key@) == Some(f.model()),
            None => spec_header_field(yaml@, key@) is None,
        },
{
    let lines = split_lines_from(yaml, 0);
    match field_line(&lines, key) {
        None => None,
        Some((i, raw)) => field_value(&lines, i, raw),
    }
}

/// Reads a vocabulary card's text: the header between the first two dash
/// fences yields the word and its translations. A missing fence is a layout
/// fault; a missing or ill-shaped field a content fault.
pub fn extract_vocabulary_fields(content: &str) -> (r: Result<VocabularyEntryHeader, AppError>)
    ensures
        match r {
            Ok(h) => spec_extract(content@) == Ok::<(Seq<char>, Seq<Seq<char>>), AppError>((h.word@, h.translations.deep_view())),
            Err(e) => spec_extract(content@) == Err::<(Seq<char>, Seq<Seq<char>>), AppError>(e),
        },
{
    let chars = str_chars(content);
    let total = chars.len();
    let a = match find_dashes(&chars, 0) {
        None => {
            return Err(AppError::Format);
        },
        Some(a) => a,
    };
    let b = match find_dashes(&chars, a + 3) {
        None => {
            return Err(AppError::Format);
        },
        Some(b) => b,
    };
    let yaml = sub_vec(&chars, a + 3, b);
    let key_it = str_chars("Italian");
    let key_en = str_chars("English");
    let fi = match header_field(&yaml, &key_it) {
        None => {
            return Err(AppError::Parse);
        },
        Some(f) => f,
    };
    let fe = match header_field(&yaml, &key_en) {
        None => {
            return Err(AppError::Parse);
        },
        Some(f) => f,
    };
    let w = match word_of(&fi) {
        None => {
            return Err(AppError::Parse);
        },
        Some(w) => w,
    };
    let ts = match fe {
        YamlField::Scalar(_) => {
            return Err(AppError::Parse);
        },
        YamlField::List(items) => match translations_from(&items, 0) {
            None => {
                return Err(AppError::Parse);
            },
            Some(ts) => ts,
        },
    };
    let word = chars_to_string(&w);
    let mut translations: Vec<String> = Vec::new();
    let mut i: usize = 0;
    let tn = ts.len();
    while i < tn
        invariant
            i <= tn == ts@.len(),
            translations@.len() == i,
            forall|j: int| 0 <= j < i ==> (#[trigger] translations@[j])@ == ts@[j]@,
        decreases tn - i,
    {
        let t = chars_to_string(&ts[i]);
        translations.push(t);
        i = i + 1;
    }
    proof {
        assert(translations.deep_view() =~= lines_model(ts@));
    }
    Ok(VocabularyEntryHeader { word, translations })
}


/// The stored shape of card-session progress.
pub open spec fn vocab_model(cur: int, total: int, dir: Seq<char>, updated: int) -> ValModel {
    ValModel::Obj(
        seq![
            ("current_index"@, ValModel::Num(cur)),
            ("total_cards"@, ValModel::Num(total)),
            ("directory_path"@, ValModel::Str(dir)),
            ("last_updated"@, ValModel::Num(updated)),
        ],
    )
}

impl VocabularyProgress {
    /// A progress record stamped with the given time.
    pub fn new(
        current_index: u32,
        total_cards: u32,
        directory_path: String,
        last_updated: i64,
    ) -> (r: Self)
        ensures
            r.current_index == current_index,
            r.total_cards == total_cards,
            r.directory_path@ == directory_path@,
            r.last_updated == last_updated,
    {
        VocabularyProgress { current_index, total_cards, directory_path, last_updated }
    }
}

/// Builds the stored shape of a progress record.
fn vocab_value(p: &VocabularyProgress) -> (r: PrefValue)
    ensures
        r.model() == vocab_model(
            p.current_index as int,
            p.total_cards as int,
            p.directory_path@,
            p.last_updated as int,
        ),
{
    let mut fields: Vec<(String, PrefValue)> = Vec::new();
    fields.push(("current_index".to_owned(), PrefValue::Num(p.current_index as i64)));
    let ghost s0 = fields@;
    fields.push(("total_cards".to_owned(), PrefValue::Num(p.total_cards as i64)));
    let ghost s1 = fields@;
    fields.push(("directory_path".to_owned(), PrefValue::Str(p.directory_path.clone())));
    let ghost s2 = fields@;
    fields.push(("last_updated".to_owned(), PrefValue::Num(p.last_updated)));
    let r = PrefValue::Obj(fields);
    proof {
        let ghost fs = fields@;
        assert(s0[0].0@ == "current_index"@ && s0[0].1.model() == ValModel::Num(
            p.current_index as int,
        ));
        assert(s1[0] == s0[0]);
        assert(s1[1].0@ == "total_cards"@ && s1[1].1.model() == ValModel::Num(p.total_cards as int));
        assert(s2[0] == s1[0] && s2[1] == s1[1]);
        assert(s2[2].0@ == "directory_path"@ && s2[2].1.model() == ValModel::Str(
            p.directory_path@,
        ));
        assert(fs[0] == s2[0] && fs[1] == s2[1] && fs[2] == s2[2]);
        assert(fs.len() == 4);
        assert(fs[3].0@ == "last_updated"@ && fs[3].1.model() == ValModel::Num(
            p.last_updated as int,
        ));
        assert(r.model()->Obj_0[0] == ("current_index"@, ValModel::Num(p.current_index as int)));
        assert(r.model()->Obj_0[1] == ("total_cards"@, ValModel::Num(p.total_cards as int)));
        assert(r.model()->Obj_0[2] == ("directory_path"@, ValModel::Str(p.directory_path@)));
        assert(r.model()->Obj_0[3] == ("last_updated"@, ValModel::Num(p.last_updated as int)));
        assert(r.model()->Obj_0 =~= vocab_model(
            p.current_index as int,
            p.total_cards as int,
            p.directory_path@,
            p.last_updated as int,
        )->Obj_0);
    }
    r
}

/// Saves card-session progress, stamped with the given time; the directory
/// must not be blank, and the index must not pass the card count.
pub fn save_vocabulary_progress(
    store: &mut PrefMap,
    current_index: u32,
    total_cards: u32,
    directory_path: String,
    now: i64,
) -> (r: Result<PrefEvent, AppError>)
    requires
        old(store).wf(),
    ensures
        final(store).wf(),
        match r {
            Ok(ev) => !is_blank(directory_path@) && current_index <= total_cards && final(store)@
                =~= spec_upsert(
                old(store)@,
                "vocabulary_progress"@,
                vocab_model(
                    current_index as int,
                    total_cards as int,
                    directory_path@,
                    now as int,
                ),
            ) && (ev matches PrefEvent::Updated { .. }),
            Err(e) => e == AppError::Validation && (is_blank(directory_path@) || current_index
                > total_cards) && *final(store) == *old(store),
        },
{
    if str_is_blank(directory_path.as_str()) {
        return Err(AppError::Validation);
    }
    if current_index > total_cards {
        return Err(AppError::Validation);
    }
    proof {
        reveal_strlit("vocabulary_progress");
        assert(!is_ws_char("vocabulary_progress"@[0]));
    }
    let progress = VocabularyProgress::new(current_index, total_cards, directory_path, now);
    let value = vocab_value(&progress);
    match store.save_preference("vocabulary_progress".to_owned(), value) {
        Ok(ev) => Ok(ev),
        Err(_) => {
            proof {
                assert(false);
            }
            Err(AppError::Validation)
        },
    }
}

/// The stored card-session progress, `Null` when none was saved yet.
pub fn get_vocabulary_progress(store: &PrefMap) -> (r: Result<PrefValue, AppError>)
    ensures
        r is Ok,
        r->Ok_0.model() == match lookup(store@, "vocabulary_progress"@) {
            Some(m) => m,
            None => ValModel::Null,
        },
{
    proof {
        reveal_strlit("vocabulary_progress");
        assert(!is_ws_char("vocabulary_progress"@[0]));
    }
    match store.get_preference("vocabulary_progress") {
        Ok(v) => Ok(v),
        Err(_) => {
            proof {
                assert(false);
            }
            Ok(PrefValue::Null)
        },
    }
}

} // verus!
