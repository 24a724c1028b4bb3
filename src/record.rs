use vstd::prelude::*;
use vstd::string::*;
use crate::text::{split_at_sep, free_of, lemma_split_push, lemma_split_append_free, lemma_split_free};

verus! {

/// One property of one character: the row that a record line stands for.
#[derive(Clone, Debug)]
pub struct FieldRecord {
    pub character: u32,
    pub name: String,
    pub value: String,
}

impl View for FieldRecord {
    type V = (u32, Seq<char>, Seq<char>);

    open spec fn view(&self) -> (u32, Seq<char>, Seq<char>) {
        (self.character, self.name@, self.value@)
    }
}

/// Why a line that starts with `U+` is not a record.
#[derive(Clone, Copy, Debug, PartialEq, Eq, Structural)]
pub enum ParseError {
    /// The text between `U+` and the first tab is not a hexadecimal `u32`.
    InvalidCodepoint,
    /// The line has fewer than three tab-separated fields.
    MissingField,
}

/// The value of a hexadecimal digit, if `c` is one.
pub open spec fn hex_digit(c: char) -> Option<nat> {
    if '0' <= c && c <= '9' {
        Some((c as nat - '0' as nat) as nat)
    } else if 'a' <= c && c <= 'f' {
        Some((c as nat - 'a' as nat + 10) as nat)
    } else if 'A' <= c && c <= 'F' {
        Some((c as nat - 'A' as nat + 10) as nat)
    } else {
        None
    }
}

pub open spec fn all_hex_digits(s: Seq<char>) -> bool {
    forall|i: int| 0 <= i < s.len() ==> (#[trigger] hex_digit(s[i])) is Some
}

/// The number that a string of hexadecimal digits denotes.
pub open spec fn hex_value(s: Seq<char>) -> nat
    decreases s.len(),
{
    if s.len() == 0 {
        0
    } else {
        hex_value(s.drop_last()) * 16 + hex_digit(s.last())->Some_0
    }
}

/// Base-16 reading of a `u32`: an optional `+`, then at least one
/// hexadecimal digit, with a value that fits in 32 bits.
pub open spec fn hex_u32(s: Seq<char>) -> Option<u32> {
    let digits = if s.len() > 0 && s[0] == '+' { s.skip(1) } else { s };
    if digits.len() > 0 && all_hex_digits(digits) && hex_value(digits) <= u32::MAX {
        Some(hex_value(digits) as u32)
    } else {
        None
    }
}

/// Only lines that start with `U+` can hold a record.
pub open spec fn has_record_prefix(s: Seq<char>) -> bool {
    s.len() >= 2 && s[0] == 'U' && s[1] == '+'
}

/// What a line says: no record, a record `(codepoint, name, value)`, or a
/// malformed record. The codepoint is read before the fields are counted.
pub open spec fn spec_parse_line(s: Seq<char>) -> Result<Option<(u32, Seq<char>, Seq<char>)>, ParseError> {
    if !has_record_prefix(s) {
        Ok(None)
    } else {
        let fields = split_at_sep(s, '\t');
        match hex_u32(fields[0].skip(2)) {
            None => Err(ParseError::InvalidCodepoint),
            Some(c) => if fields.len() < 3 {
                Err(ParseError::MissingField)
            } else {
                Ok(Some((c, fields[1], fields[2])))
            },
        }
    }
}

/// A well-formed record line, `U+` then hexadecimal digits, a tab, a name,
/// a tab and a value, reads as the codepoint that the digits denote, with the
/// name and the value taken verbatim.
pub proof fn lemma_well_formed_line(hex: Seq<char>, name: Seq<char>, value: Seq<char>)
    requires
        hex.len() > 0,
        all_hex_digits(hex),
        hex_value(hex) <= u32::MAX,
        free_of(name, '\t'),
        free_of(value, '\t'),
    ensures
        spec_parse_line(seq!['U', '+'] + hex + seq!['\t'] + name + seq!['\t'] + value)
            == Ok::<Option<(u32, Seq<char>, Seq<char>)>, ParseError>(Some((hex_value(hex) as u32, name, value))),
{
    let head = seq!['U', '+'] + hex;
    assert(free_of(head, '\t')) by {
        assert forall|i: int| 0 <= i < head.len() implies head[i] != '\t' by {
            if i >= 2 {
                assert(head[i] == hex[i - 2]);
                assert(hex_digit(hex[i - 2]) is Some);
            }
        }
    }
    let e = Seq::<char>::empty();
    lemma_split_free(head, '\t');
    lemma_split_push(head, '\t', '\t');
    let s1 = head.push('\t');
    lemma_split_append_free(s1, name, '\t');
    assert(seq![head, e].update(1, e + name) =~= seq![head, name]);
    let s2 = (s1 + name).push('\t');
    lemma_split_push(s1 + name, '\t', '\t');
    lemma_split_append_free(s2, value, '\t');
    assert(seq![head, name, e].update(2, e + value) =~= seq![head, name, value]);
    let line = seq!['U', '+'] + hex + seq!['\t'] + name + seq!['\t'] + value;
    assert(line =~= s2 + value);
    assert(head.skip(2) =~= hex);
    assert(hex_digit(hex[0]) is Some);
    assert(split_at_sep(line, '\t') == seq![head, name, value]);
}

proof fn lemma_hex_value_grows(s: Seq<char>, k: int)
    requires
        0 <= k <= s.len(),
        all_hex_digits(s),
    ensures
        hex_value(s.take(k)) <= hex_value(s),
    decreases s.len() - k,
{
    if k < s.len() {
        lemma_hex_value_grows(s, k + 1);
        assert(s.take(k + 1).drop_last() =~= s.take(k));
    } else {
        assert(s.take(k) =~= s);
    }
}

fn hex_digit_exec(c: char) -> (r: Option<u32>)
    ensures
        r is Some <==> hex_digit(c) is Some,
        r is Some ==> r->Some_0 as nat == hex_digit(c)->Some_0 && r->Some_0 < 16,
{
    if '0' <= c && c <= '9' {
        Some((c as u32) - ('0' as u32))
    } else if 'a' <= c && c <= 'f' {
        Some((c as u32) - ('a' as u32) + 10)
    } else if 'A' <= c && c <= 'F' {
        Some((c as u32) - ('A' as u32) + 10)
    } else {
        None
    }
}

/// Reads the characters `s[from..to]` as a base-16 `u32`, as
/// `u32::from_str_radix(_, 16)` does.
fn parse_hex_u32(s: &str, from: usize, to: usize) -> (r: Option<u32>)
    requires
        from <= to <= s@.len(),
    ensures
        r == hex_u32(s@.subrange(from as int, to as int)),
{
    let ghost t = s@.subrange(from as int, to as int);
    let mut start = from;
    if from < to && s.get_char(from) == '+' {
        start = from + 1;
    }
    let ghost digits = s@.subrange(start as int, to as int);
    assert(digits =~= (if t.len() > 0 && t[0] == '+' { t.skip(1) } else { t }));
    if start == to {
        return None;
    }
    let mut acc: u64 = 0;
    let mut i = start;
    while i < to
        invariant
            from <= start <= i <= to <= s@.len(),
            digits == s@.subrange(start as int, to as int),
            t == s@.subrange(from as int, to as int),
            digits == (if t.len() > 0 && t[0] == '+' { t.skip(1) } else { t }),
            all_hex_digits(digits.take(i - start)),
            acc as nat == hex_value(digits.take(i - start)),
            acc <= u32::MAX,
        decreases to - i,
    {
        let c = s.get_char(i);
        let ghost k = i - start;
        assert(digits.take(k + 1).drop_last() =~= digits.take(k));
        assert(digits.take(k + 1).last() == c);
        match hex_digit_exec(c) {
            None => {
                assert(digits[k] == c);
                assert(hex_digit(digits[k]) is None);
                assert(!all_hex_digits(digits));
                return None;
            },
            Some(d) => {
                let next = acc * 16 + d as u64;
                assert(all_hex_digits(digits.take(k + 1))) by {
                    assert forall|j: int| 0 <= j < k + 1 implies (#[trigger] hex_digit(digits.take(k + 1)[j])) is Some by {
                        if j < k {
                            assert(digits.take(k + 1)[j] == digits.take(k)[j]);
                        }
                    }
                }
                assert(hex_value(digits.take(k + 1)) == hex_value(digits.take(k)) * 16 + hex_digit(c)->Some_0);
                if next > u32::MAX as u64 {
                    proof {
                        if all_hex_digits(digits) {
                            lemma_hex_value_grows(digits, k + 1);
                        }
                    }
                    return None;
                }
                acc = next;
                i = i + 1;
            },
        }
    }
    assert(digits.take(i - start) =~= digits);
    Some(acc as u32)
}

/// Reads one line of the dataset.
///
/// A line that does not start with `U+` is no record, and never an error.
/// Otherwise the line is split at tabs: the first field, without `U+`, is the
/// codepoint in base 16, and the next two fields are the name and the value;
/// further fields are ignored.
pub fn parse_line(line: &str) -> (r: Result<Option<FieldRecord>, ParseError>)
    ensures
        !has_record_prefix(line@) ==> r is Ok && r->Ok_0 is None,
        match r {
            Ok(None) => spec_parse_line(line@) == Ok::<Option<(u32, Seq<char>, Seq<char>)>, ParseError>(None),
            Ok(Some(rec)) => spec_parse_line(line@) == Ok::<Option<(u32, Seq<char>, Seq<char>)>, ParseError>(Some(rec@)),
            Err(e) => spec_parse_line(line@) == Err::<Option<(u32, Seq<char>, Seq<char>)>, ParseError>(e),
        },
{
    let n = line.unicode_len();
    if n < 2 || line.get_char(0) != 'U' || line.get_char(1) != '+' {
        return Ok(None);
    }
    let (fields, first_end) = split_tabs(line);
    let codepoint = parse_hex_u32(line, 2, first_end);
    assert(split_at_sep(line@, '\t')[0].skip(2) =~= line@.subrange(2, first_end as int));
    match codepoint {
        None => Err(ParseError::InvalidCodepoint),
        Some(c) => {
            if fields.len() < 3 {
                return Err(ParseError::MissingField);
            }
            let name = fields[1].clone();
            let value = fields[2].clone();
            Ok(Some(FieldRecord { character: c, name, value }))
        },
    }
}

pub open spec fn views_of(v: Seq<String>) -> Seq<Seq<char>> {
    v.map_values(|f: String| f@)
}

/// Splits a line that starts with `U+` at every tab; also returns where the
/// first field ends.
fn split_tabs(line: &str) -> (r: (Vec<String>, usize))
    requires
        has_record_prefix(line@),
    ensures
        views_of(r.0@) == split_at_sep(line@, '\t'),
        r.0@.len() >= 1,
        2 <= r.1 <= line@.len(),
        r.0@[0]@ == line@.subrange(0, r.1 as int),
{
    let n = line.unicode_len();
    let mut fields: Vec<String> = Vec::new();
    let mut i: usize = 0;
    let mut start: usize = 0;
    let mut first_end: usize = n;
    assert(line@.take(0) =~= Seq::<char>::empty());
    assert(views_of(fields@).push(line@.subrange(0, 0)) =~= seq![Seq::<char>::empty()]);
    while i < n
        invariant
            n == line@.len(),
            has_record_prefix(line@),
            start <= i <= n,
            split_at_sep(line@.take(i as int), '\t') == views_of(fields@).push(line@.subrange(start as int, i as int)),
            fields@.len() == 0 ==> start == 0 && first_end == n,
            fields@.len() > 0 ==> 2 <= first_end <= n && fields@[0]@ == line@.subrange(0, first_end as int),
        decreases n - i,
    {
        let c = line.get_char(i);
        proof {
            assert(line@.take(i + 1) =~= line@.take(i as int).push(c));
            lemma_split_push(line@.take(i as int), c, '\t');
        }
        if c == '\t' {
            let piece = String::from_str(line.substring_char(start, i));
            if fields.len() == 0 {
                first_end = i;
            }
            fields.push(piece);
            start = i + 1;
            assert(views_of(fields@) =~= split_at_sep(line@.take(i as int), '\t'));
        } else {
            assert(line@.subrange(start as int, i + 1) =~= line@.subrange(start as int, i as int).push(c));
        }
        i = i + 1;
        assert(line@.subrange(start as int, i as int) =~= (if c == '\t' { Seq::<char>::empty() } else { line@.subrange(start as int, i as int) }));
        assert(views_of(fields@).push(line@.subrange(start as int, i as int)) =~= split_at_sep(line@.take(i as int), '\t'));
    }
    let last = String::from_str(line.substring_char(start, n));
    fields.push(last);
    assert(line@.take(n as int) =~= line@);
    assert(views_of(fields@) =~= split_at_sep(line@, '\t'));
    (fields, first_end)
}

} // verus!
