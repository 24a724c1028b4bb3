use vstd::prelude::*;
use vstd::utf8::{decode_utf8, valid_utf8};
use crate::error::{ErrorKind, InternalError};
use crate::record::{parse_line, spec_parse_line, FieldRecord, ParseError};
use crate::text::{split_at_sep, lemma_split_push, utf8_to_string};

verus! {

/// The abstract content of a record: `(codepoint, name, value)`.
pub type RecordView = (u32, Seq<char>, Seq<char>);

pub open spec fn records_view(v: Seq<FieldRecord>) -> Seq<RecordView> {
    v.map_values(|r: FieldRecord| r@)
}

/// A line with the carriage return of a CRLF ending taken off.
pub open spec fn strip_cr(l: Seq<u8>) -> Seq<u8> {
    if l.len() > 0 && l.last() == 13u8 {
        l.drop_last()
    } else {
        l
    }
}

/// The lines of a byte stream: split at `\n`, a `\r` before a `\n` dropped,
/// and no empty line after a final `\n` (nor in an empty stream).
pub open spec fn byte_lines(b: Seq<u8>) -> Seq<Seq<u8>> {
    let pieces = split_at_sep(b, 10u8);
    let done = pieces.drop_last().map_values(|l: Seq<u8>| strip_cr(l));
    if pieces.last().len() > 0 {
        done.push(pieces.last())
    } else {
        done
    }
}

/// What one line of a member contributes: a record, nothing, or the failure
/// that aborts the member.
pub open spec fn line_outcome(l: Seq<u8>) -> Result<Option<RecordView>, ErrorKind> {
    if !valid_utf8(l) {
        Err(ErrorKind::Encoding)
    } else {
        match spec_parse_line(decode_utf8(l)) {
            Ok(r) => Ok(r),
            Err(_) => Err(ErrorKind::Parse),
        }
    }
}

/// The records of a sequence of lines, in order, or the failure of the
/// first line that fails.
pub open spec fn lines_outcome(ls: Seq<Seq<u8>>) -> Result<Seq<RecordView>, ErrorKind>
    decreases ls.len(),
{
    if ls.len() == 0 {
        Ok(Seq::<RecordView>::empty())
    } else {
        match lines_outcome(ls.drop_last()) {
            Err(k) => Err(k),
            Ok(rs) => match line_outcome(ls.last()) {
                Err(k) => Err(k),
                Ok(None) => Ok(rs),
                Ok(Some(r)) => Ok(rs.push(r)),
            },
        }
    }
}

/// What the content of one archive member yields.
pub open spec fn member_outcome(b: Seq<u8>) -> Result<Seq<RecordView>, ErrorKind> {
    lines_outcome(byte_lines(b))
}

/// The finished pieces of a prefix are the first finished pieces of the whole.
proof fn lemma_finished_pieces_grow(s: Seq<u8>, j: int)
    requires
        0 <= j <= s.len(),
    ensures
        split_at_sep(s.take(j), 10u8).drop_last().len() <= split_at_sep(s, 10u8).drop_last().len(),
        split_at_sep(s, 10u8).drop_last().take(split_at_sep(s.take(j), 10u8).drop_last().len() as int)
            =~= split_at_sep(s.take(j), 10u8).drop_last(),
    decreases s.len() - j,
{
    if j < s.len() {
        lemma_finished_pieces_grow(s, j + 1);
        assert(s.take(j + 1) =~= s.take(j).push(s[j]));
        lemma_split_push(s.take(j), s[j], 10u8);
        crate::text::lemma_split_nonempty(s.take(j), 10u8);
        let p = split_at_sep(s.take(j), 10u8);
        let q = split_at_sep(s.take(j + 1), 10u8);
        if s[j] == 10u8 {
            assert(q.drop_last() =~= p);
        } else {
            assert(q.drop_last() =~= p.drop_last());
        }
    } else {
        assert(s.take(j) =~= s);
    }
}

/// The lines finished within a prefix are the first lines of the whole.
proof fn lemma_lines_prefix(b: Seq<u8>, j: int)
    requires
        0 <= j <= b.len(),
    ensures
        ({
            let d = split_at_sep(b.take(j), 10u8).drop_last().map_values(|l: Seq<u8>| strip_cr(l));
            d.len() <= byte_lines(b).len() && byte_lines(b) =~= d + byte_lines(b).skip(d.len() as int)
        }),
{
    lemma_finished_pieces_grow(b, j);
    crate::text::lemma_split_nonempty(b, 10u8);
    let d = split_at_sep(b.take(j), 10u8).drop_last().map_values(|l: Seq<u8>| strip_cr(l));
    let full = byte_lines(b);
    let fin = split_at_sep(b, 10u8).drop_last();
    assert(forall|k: int| 0 <= k < d.len() ==> #[trigger] full[k] == d[k]) by {
        assert forall|k: int| 0 <= k < d.len() implies #[trigger] full[k] == d[k] by {
            assert(fin.take(split_at_sep(b.take(j), 10u8).drop_last().len() as int)[k] == fin[k]);
        }
    }
    assert(full =~= d + full.skip(d.len() as int));
}

/// Once a line fails, the lines after it do not matter.
proof fn lemma_failure_extends(ls: Seq<Seq<u8>>, more: Seq<Seq<u8>>)
    requires
        lines_outcome(ls) is Err,
    ensures
        lines_outcome(ls + more) == lines_outcome(ls),
    decreases more.len(),
{
    if more.len() > 0 {
        lemma_failure_extends(ls, more.drop_last());
        assert((ls + more).drop_last() =~= ls + more.drop_last());
    } else {
        assert(ls + more =~= ls);
    }
}

fn parse_error_message(e: ParseError) -> (r: String) {
    match e {
        ParseError::InvalidCodepoint => String::from_str("malformed record line: invalid codepoint"),
        ParseError::MissingField => String::from_str("malformed record line: fewer than three fields"),
    }
}

/// Decodes and reads one line of a member.
fn read_line(line: &Vec<u8>) -> (r: Result<Option<FieldRecord>, InternalError>)
    ensures
        match r {
            Ok(None) => line_outcome(line@) == Ok::<Option<RecordView>, ErrorKind>(None),
            Ok(Some(rec)) => line_outcome(line@) == Ok::<Option<RecordView>, ErrorKind>(Some(rec@)),
            Err(e) => line_outcome(line@) == Err::<Option<RecordView>, ErrorKind>(e.kind),
        },
{
    match utf8_to_string(line) {
        None => Err(InternalError::new(ErrorKind::Encoding, String::from_str("stream did not contain valid UTF-8"))),
        Some(text) => match parse_line(text.as_str()) {
            Ok(r) => Ok(r),
            Err(e) => Err(InternalError::new(ErrorKind::Parse, parse_error_message(e))),
        },
    }
}

/// Reads the records of one archive member, in the order of its lines.
///
/// Lines that do not start with `U+` are skipped; the first line that is not
/// valid UTF-8 or is a malformed record fails the whole member, so that no
/// part of it is stored.
pub fn parse_member(bytes: &Vec<u8>) -> (r: Result<Vec<FieldRecord>, InternalError>)
    ensures
        match r {
            Ok(v) => member_outcome(bytes@) == Ok::<Seq<RecordView>, ErrorKind>(records_view(v@)),
            Err(e) => member_outcome(bytes@) == Err::<Seq<RecordView>, ErrorKind>(e.kind),
        },
{
    let ghost b = bytes@;
    let mut records: Vec<FieldRecord> = Vec::new();
    let mut cur: Vec<u8> = Vec::new();
    let mut i: usize = 0;
    assert(b.take(0) =~= Seq::<u8>::empty());
    assert(split_at_sep(b.take(0), 10u8).drop_last().map_values(|l: Seq<u8>| strip_cr(l)) =~= Seq::<Seq<u8>>::empty());
    assert(records_view(records@) =~= Seq::<RecordView>::empty());
    while i < bytes.len()
        invariant
            b == bytes@,
            i <= b.len(),
            lines_outcome(split_at_sep(b.take(i as int), 10u8).drop_last().map_values(|l: Seq<u8>| strip_cr(l)))
                == Ok::<Seq<RecordView>, ErrorKind>(records_view(records@)),
            cur@ == split_at_sep(b.take(i as int), 10u8).last(),
        decreases b.len() - i,
    {
        let x = bytes[i];
        let ghost pieces = split_at_sep(b.take(i as int), 10u8);
        let ghost done = pieces.drop_last().map_values(|l: Seq<u8>| strip_cr(l));
        proof {
            assert(b.take(i + 1) =~= b.take(i as int).push(x));
            lemma_split_push(b.take(i as int), x, 10u8);
            crate::text::lemma_split_nonempty(b.take(i as int), 10u8);
        }
        if x == 10u8 {
            let mut line = cur;
            if line.len() > 0 && line[line.len() - 1] == 13u8 {
                line.pop();
            }
            let ghost stripped = line@;
            assert(stripped == strip_cr(pieces.last()));
            let ghost done2 = pieces.push(Seq::<u8>::empty()).drop_last().map_values(|l: Seq<u8>| strip_cr(l));
            assert(done2 =~= done.push(stripped)) by {
                assert(pieces.push(Seq::<u8>::empty()).drop_last() =~= pieces);
                assert(pieces =~= pieces.drop_last().push(pieces.last()));
            }
            assert(done.push(stripped).drop_last() =~= done);
            match read_line(&line) {
                Err(e) => {
                    proof {
                        lemma_lines_prefix(b, i + 1);
                        let full = byte_lines(b);
                        lemma_failure_extends(done2, full.skip(done2.len() as int));
                    }
                    return Err(e);
                },
                Ok(None) => {},
                Ok(Some(rec)) => {
                    let ghost before = records@;
                    records.push(rec);
                    assert(records_view(records@) =~= records_view(before).push(rec@));
                },
            }
            cur = Vec::new();
        } else {
            cur.push(x);
            assert(pieces.update(pieces.len() - 1, pieces.last().push(x)).drop_last() =~= pieces.drop_last());
        }
        i = i + 1;
    }
    assert(b.take(i as int) =~= b);
    let ghost pieces = split_at_sep(b, 10u8);
    if cur.len() > 0 {
        let ghost done = pieces.drop_last().map_values(|l: Seq<u8>| strip_cr(l));
        assert(done.push(cur@).drop_last() =~= done);
        match read_line(&cur) {
            Err(e) => {
                return Err(e);
            },
            Ok(None) => {},
            Ok(Some(rec)) => {
                let ghost before = records@;
                records.push(rec);
                assert(records_view(records@) =~= records_view(before).push(rec@));
            },
        }
    }
    Ok(records)
}

} // verus!
