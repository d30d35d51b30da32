//! The opening handshake: an HTTP/1.1 message of a start line and header
//! fields, as bytes and as a value.
//!
//! On the wire a message is its start line, then one line per field written
//! `name: value`, then an empty line; every line ends with CR LF. The
//! specification functions [`encode_handshake`] and [`parse_handshake`] give
//! that layout over byte sequences, and the executable functions of
//! [`Handshake`] are proved to compute them.

use crate::headers::{distinct_names, lemma_position, position, with_field, Fields, HeaderMap};
use crate::text::{
    find, find_bytes, lemma_byte_first_at, lemma_find_is_first, occurs_at, trim, trimmed,
};
use vstd::array::array_as_slice;
use vstd::prelude::*;
use vstd::slice::{slice_subrange, slice_to_vec};

verus! {

/// A handshake message: the request line or status line, without its line
/// ending, and the header fields.
#[derive(Debug, PartialEq, Eq)]
pub struct Handshake {
    pub start_line: Vec<u8>,
    pub headers: HeaderMap,
}

/// The mathematical value of a [`Handshake`].
pub struct HandshakeView {
    pub start_line: Seq<u8>,
    pub headers: Fields,
}

impl View for Handshake {
    type V = HandshakeView;

    open spec fn view(&self) -> HandshakeView {
        HandshakeView { start_line: self.start_line@, headers: self.headers@ }
    }
}

/// The line feed that ends a line.
pub open spec fn lf() -> Seq<u8> {
    seq![0x0au8]
}

/// The line ending that is written: carriage return, line feed.
pub open spec fn crlf() -> Seq<u8> {
    seq![0x0du8, 0x0au8]
}

/// The end of the header block: the ending of the last line and an empty
/// line.
pub open spec fn terminator() -> Seq<u8> {
    seq![0x0du8, 0x0au8, 0x0du8, 0x0au8]
}

/// What stands between a field's name and its value: a colon and a space.
pub open spec fn separator() -> Seq<u8> {
    seq![0x3au8, 0x20u8]
}

/// One field as a line.
pub open spec fn field_line(field: (Seq<u8>, Seq<u8>)) -> Seq<u8> {
    field.0 + separator() + field.1 + crlf()
}

/// The lines of all fields, in order.
pub open spec fn field_block(fields: Fields) -> Seq<u8>
    decreases fields.len(),
{
    if fields.len() == 0 {
        Seq::empty()
    } else {
        field_block(fields.drop_last()) + field_line(fields.last())
    }
}

/// The bytes of a handshake message.
pub open spec fn encode_handshake(message: HandshakeView) -> Seq<u8> {
    message.start_line + crlf() + field_block(message.headers) + crlf()
}

/// The index of the first line feed in `s`, or the length of `s` where it
/// holds none.
pub open spec fn line_end(s: Seq<u8>) -> int {
    match find(s, lf()) {
        Some(i) => if 0 <= i < s.len() {
            i
        } else {
            s.len() as int
        },
        None => s.len() as int,
    }
}

/// A line without the carriage return at its end, if it has one.
pub open spec fn strip_cr(line: Seq<u8>) -> Seq<u8> {
    if line.len() > 0 && line.last() == 0x0du8 {
        line.drop_last()
    } else {
        line
    }
}

/// The first line of `s`, without its line ending.
pub open spec fn first_line(s: Seq<u8>) -> Seq<u8> {
    strip_cr(s.take(line_end(s)))
}

/// What follows the first line of `s` and its line feed.
pub open spec fn after_first_line(s: Seq<u8>) -> Seq<u8> {
    if line_end(s) < s.len() {
        s.skip(line_end(s) + 1)
    } else {
        Seq::empty()
    }
}

/// The field that a line spells: the name is what stands before the first
/// colon-space, the value what stands after it, trimmed. A line without a
/// colon-space spells no field.
pub open spec fn parse_field(line: Seq<u8>) -> Option<(Seq<u8>, Seq<u8>)> {
    match find(line, separator()) {
        Some(i) => Some((line.take(i), trim(line.skip(i + 2)))),
        None => None,
    }
}

/// The fields after the lines of `block` have been read into `fields`, line
/// by line. A later field of the same name replaces the value of an earlier
/// one; lines that spell no field are skipped.
pub open spec fn parse_fields(block: Seq<u8>, fields: Fields) -> Fields
    decreases block.len(),
{
    if block.len() == 0 {
        fields
    } else {
        let next = match parse_field(first_line(block)) {
            Some((name, value)) => with_field(fields, name, value),
            None => fields,
        };
        parse_fields(after_first_line(block), next)
    }
}

/// The message at the front of `bytes` and the number of bytes it occupies,
/// once the end of its header block has arrived. The message ends with the
/// first CR LF CR LF.
pub open spec fn parse_handshake(bytes: Seq<u8>) -> Option<(HandshakeView, nat)> {
    match find(bytes, terminator()) {
        None => None,
        Some(end) => {
            let head = bytes.take(end + 2);
            Some(
                (
                    HandshakeView {
                        start_line: first_line(head),
                        headers: parse_fields(after_first_line(head), Seq::empty()),
                    },
                    (end + 4) as nat,
                ),
            )
        },
    }
}

/// Whether a byte string holds no line feed.
pub open spec fn no_line_feed(s: Seq<u8>) -> bool {
    forall|i: int| 0 <= i < s.len() ==> s[i] != 0x0au8
}

/// Whether a field reads back as it was written: neither part holds a line
/// feed, the name holds no colon-space, and the value has no space or tab at
/// either end.
pub open spec fn field_writable(field: (Seq<u8>, Seq<u8>)) -> bool {
    &&& no_line_feed(field.0)
    &&& no_line_feed(field.1)
    &&& forall|i: int|
        0 <= i < field.0.len() - 1 ==> !(field.0[i] == 0x3au8 && #[trigger] field.0[i + 1]
            == 0x20u8)
    &&& trim(field.1) == field.1
}

/// Whether a message reads back as it was written: the start line holds no
/// line feed, every field is writable and no name occurs twice.
pub open spec fn message_writable(message: HandshakeView) -> bool {
    &&& no_line_feed(message.start_line)
    &&& forall|i: int|
        0 <= i < message.headers.len() ==> field_writable(#[trigger] message.headers[i])
    &&& distinct_names(message.headers)
}

/// The lines of the fields, taken from the front: the line of the first
/// field, then the lines of the others.
proof fn lemma_field_block_front(fields: Fields)
    requires
        fields.len() > 0,
    ensures
        field_block(fields) == field_line(fields[0]) + field_block(fields.skip(1)),
    decreases fields.len(),
{
    if fields.len() == 1 {
        assert(fields.drop_last() =~= Fields::empty());
        assert(fields.skip(1) =~= Fields::empty());
        assert(field_block(fields.drop_last()) =~= Seq::<u8>::empty());
        assert(field_block(fields) =~= field_line(fields[0]) + Seq::<u8>::empty());
    } else {
        let front = fields.drop_last();
        lemma_field_block_front(front);
        assert(front.skip(1) =~= fields.skip(1).drop_last());
        assert(fields.skip(1).last() == fields.last());
        assert(front[0] == fields[0]);
        assert(field_block(fields) =~= field_line(fields[0]) + field_block(fields.skip(1)));
    }
}

/// Whether `s` ends with a line ending and holds no two line feeds that are
/// two bytes apart.
spec fn well_spaced(s: Seq<u8>) -> bool {
    &&& s.len() >= 2
    &&& s[s.len() - 2] == 0x0du8
    &&& s[s.len() - 1] == 0x0au8
    &&& forall|i: int|
        0 <= i && i + 2 < s.len() && s[i] == 0x0au8 ==> #[trigger] s[i + 2] != 0x0au8
}

/// Writing writable fields behind well-spaced bytes leaves them well
/// spaced: a line that holds a colon-space is too long for its line feed to
/// stand two bytes behind the one before.
proof fn lemma_block_well_spaced(prefix: Seq<u8>, fields: Fields)
    requires
        well_spaced(prefix),
        forall|i: int| 0 <= i < fields.len() ==> field_writable(#[trigger] fields[i]),
    ensures
        well_spaced(prefix + field_block(fields)),
    decreases fields.len(),
{
    if fields.len() == 0 {
        assert(prefix + field_block(fields) =~= prefix);
    } else {
        let front = fields.drop_last();
        let last = fields.last();
        assert forall|i: int| 0 <= i < front.len() implies field_writable(
            #[trigger] front[i],
        ) by {
            assert(front[i] == fields[i]);
        }
        lemma_block_well_spaced(prefix, front);
        let before = prefix + field_block(front);
        let content = last.0 + separator() + last.1;
        let after = prefix + field_block(fields);
        assert(after =~= before + content + crlf());
        assert(field_writable(last));
        let n = before.len() as int;
        let m = content.len() as int;
        assert(m >= 2);
        assert forall|i: int| 0 <= i < m implies content[i] != 0x0au8 by {
            if i < last.0.len() {
                assert(content[i] == last.0[i]);
            } else if i >= last.0.len() + 2 {
                assert(content[i] == last.1[i - last.0.len() - 2]);
            }
        }
        assert forall|i: int| 0 <= i && i + 2 < after.len() && after[i] == 0x0au8 implies
            #[trigger] after[i + 2] != 0x0au8 by {
            if i + 2 < n {
                assert(after[i] == before[i]);
                assert(after[i + 2] == before[i + 2]);
            } else if i + 2 < n + m {
                assert(after[i + 2] == content[i + 2 - n]);
            } else if i + 2 == n + m {
                assert(after[i + 2] == 0x0du8);
            } else {
                if i < n {
                } else if i < n + m {
                    assert(after[i] == content[i - n]);
                } else {
                    assert(after[i] == 0x0du8);
                }
            }
        }
    }
}

/// The first line of a line without line feed, written with its ending and
/// followed by anything, is that line, and what follows is what follows.
proof fn lemma_first_line_written(line: Seq<u8>, rest: Seq<u8>)
    requires
        no_line_feed(line),
    ensures
        first_line(line + crlf() + rest) == line,
        after_first_line(line + crlf() + rest) == rest,
{
    let s = line + crlf() + rest;
    let n = line.len() as int;
    assert(s[n + 1] == 0x0au8);
    assert forall|i: int| 0 <= i < n + 1 implies s[i] != 0x0au8 by {
        if i < n {
            assert(s[i] == line[i]);
        }
    }
    lemma_byte_first_at(s, 0x0au8, n + 1);
    assert(line_end(s) == n + 1);
    let taken = s.take(n + 1);
    assert(taken.last() == 0x0du8);
    assert(taken.drop_last() =~= line);
    assert(s.skip(n + 2) =~= rest);
}

/// The line of a writable field spells that field.
proof fn lemma_field_read_back(field: (Seq<u8>, Seq<u8>))
    requires
        field_writable(field),
    ensures
        parse_field(field.0 + separator() + field.1) == Some(field),
{
    let line = field.0 + separator() + field.1;
    let n = field.0.len() as int;
    assert(line.subrange(n, n + 2) =~= separator());
    assert forall|j: int| 0 <= j < n implies !occurs_at(line, separator(), j) by {
        if occurs_at(line, separator(), j) {
            assert(line.subrange(j, j + 2)[0] == separator()[0]);
            assert(line.subrange(j, j + 2)[1] == separator()[1]);
            if j + 1 < n {
                assert(line[j] == field.0[j]);
                assert(line[j + 1] == field.0[j + 1]);
            } else {
                assert(line[j + 1] == separator()[0]);
            }
        }
    }
    lemma_find_is_first(line, separator(), n);
    assert(line.take(n) =~= field.0);
    assert(line.skip(n + 2) =~= field.1);
}

/// Reading the lines of writable fields whose names are new puts those
/// fields behind the ones read before.
proof fn lemma_fields_read_back(fields: Fields, read: Fields)
    requires
        forall|i: int| 0 <= i < fields.len() ==> field_writable(#[trigger] fields[i]),
        distinct_names(read + fields),
    ensures
        parse_fields(field_block(fields), read) == read + fields,
    decreases fields.len(),
{
    if fields.len() == 0 {
        assert(read + fields =~= read);
    } else {
        let first = fields[0];
        let others = fields.skip(1);
        let line = first.0 + separator() + first.1;
        lemma_field_block_front(fields);
        let block = field_block(fields);
        assert(block =~= line + crlf() + field_block(others));
        assert(field_writable(first));
        assert(no_line_feed(line)) by {
            assert forall|i: int| 0 <= i < line.len() implies line[i] != 0x0au8 by {
                if i < first.0.len() {
                    assert(line[i] == first.0[i]);
                } else if i >= first.0.len() + 2 {
                    assert(line[i] == first.1[i - first.0.len() - 2]);
                }
            }
        }
        lemma_first_line_written(line, field_block(others));
        lemma_field_read_back(first);
        let all = read + fields;
        assert(all[read.len() as int] == first);
        lemma_position(read, first.0, false);
        assert(position(read, first.0, false) is None) by {
            if position(read, first.0, false) is Some {
                let i = position(read, first.0, false).unwrap();
                assert(all[i] == read[i]);
                assert(all[i].0 != all[read.len() as int].0);
            }
        }
        let next = read.push(first);
        assert(with_field(read, first.0, first.1) == next);
        assert(next + others =~= all);
        assert forall|i: int| 0 <= i < others.len() implies field_writable(
            #[trigger] others[i],
        ) by {
            assert(others[i] == fields[i + 1]);
        }
        lemma_fields_read_back(others, next);
    }
}

/// Parsing undoes encoding. A writable message, written out, parses to
/// itself, and the whole of what was written is consumed.
pub proof fn lemma_handshake_round_trip(message: HandshakeView)
    requires
        message_writable(message),
    ensures
        parse_handshake(encode_handshake(message)) == Some(
            (message, encode_handshake(message).len()),
        ),
{
    let bytes = encode_handshake(message);
    let top = message.start_line + crlf();
    let head = top + field_block(message.headers);
    assert(well_spaced(top)) by {
        assert forall|i: int| 0 <= i && i + 2 < top.len() && top[i] == 0x0au8 implies
            #[trigger] top[i + 2] != 0x0au8 by {
            assert(top[i] == message.start_line[i]);
        }
    }
    lemma_block_well_spaced(top, message.headers);
    let end = head.len() - 2;
    assert(bytes =~= head + crlf());
    assert(bytes.subrange(end, end + 4) =~= terminator());
    assert forall|j: int| 0 <= j < end implies !occurs_at(bytes, terminator(), j) by {
        if occurs_at(bytes, terminator(), j) {
            assert(bytes.subrange(j, j + 4)[1] == terminator()[1]);
            assert(bytes.subrange(j, j + 4)[3] == terminator()[3]);
            if j + 3 < head.len() {
                assert(head[j + 1] == bytes[j + 1]);
                assert(head[j + 1 + 2] == bytes[j + 3]);
            } else {
                assert(bytes[j + 1] == head[head.len() - 2]);
            }
        }
    }
    lemma_find_is_first(bytes, terminator(), end);
    assert(bytes.take(end + 2) =~= head);
    assert(head =~= message.start_line + crlf() + field_block(message.headers));
    lemma_first_line_written(message.start_line, field_block(message.headers));
    assert(Fields::empty() + message.headers =~= message.headers);
    lemma_fields_read_back(message.headers, Fields::empty());
}

/// Splits off the first line of `s`. The first number is the length of the
/// line without its ending, the second is where the rest begins.
fn split_line(s: &[u8]) -> (cut: (usize, usize))
    ensures
        cut.0 <= cut.1 <= s@.len(),
        s@.take(cut.0 as int) == first_line(s@),
        s@.skip(cut.1 as int) == after_first_line(s@),
        s@.len() > 0 ==> cut.1 > 0,
{
    let feed: [u8; 1] = [0x0a];
    assert(feed@ =~= lf());
    let end: usize = match find_bytes(s, array_as_slice(&feed)) {
        Some(i) => i,
        None => s.len(),
    };
    assert(end as int == line_end(s@));
    let rest: usize = if end < s.len() {
        end + 1
    } else {
        end
    };
    assert(s@.skip(rest as int) =~= after_first_line(s@));
    let stop: usize = if end > 0 && s[end - 1] == 0x0d {
        end - 1
    } else {
        end
    };
    assert(s@.take(stop as int) =~= first_line(s@)) by {
        let line = s@.take(end as int);
        if end > 0 {
            assert(line.last() == s@[end - 1]);
            assert(line.drop_last() =~= s@.take(end - 1));
        }
    }
    (stop, rest)
}

/// Reads the field that a line spells, if it spells one.
fn read_field(line: &[u8]) -> (field: Option<(Vec<u8>, Vec<u8>)>)
    ensures
        match field {
            Some((name, value)) => parse_field(line@) == Some((name@, value@)),
            None => parse_field(line@) is None,
        },
{
    let sep: [u8; 2] = [0x3a, 0x20];
    assert(sep@ =~= separator());
    let len = line.len();
    match find_bytes(line, array_as_slice(&sep)) {
        Some(i) => {
            assert(occurs_at(line@, separator(), i as int));
            let name = slice_to_vec(slice_subrange(line, 0, i));
            assert(name@ =~= line@.take(i as int));
            let value = trimmed(line, i + 2, len);
            assert(line@.subrange(i + 2, line@.len() as int) =~= line@.skip(i + 2));
            Some((name, value))
        },
        None => None,
    }
}

impl Handshake {
    /// Parses the message at the front of `buf`. Returns `None` while the
    /// end of the header block has not arrived; otherwise the message and the
    /// number of bytes it occupies. Nothing is consumed.
    pub fn parse(buf: &[u8]) -> (res: Option<(Handshake, usize)>)
        ensures
            match res {
                Some((message, consumed)) => parse_handshake(buf@) == Some(
                    (message@, consumed as nat),
                ),
                None => parse_handshake(buf@) is None,
            },
            res matches Some((_, consumed)) ==> 4 <= consumed <= buf@.len(),
    {
        let term: [u8; 4] = [0x0d, 0x0a, 0x0d, 0x0a];
        assert(term@ =~= terminator());
        assert(buf@.len() == buf.len());
        let end: usize = match find_bytes(buf, array_as_slice(&term)) {
            Some(end) => end,
            None => {
                return None;
            },
        };
        assert(occurs_at(buf@, terminator(), end as int));
        let head = slice_subrange(buf, 0, end + 2);
        assert(head@ =~= buf@.take(end + 2));
        let cut = split_line(head);
        let start_line = slice_to_vec(slice_subrange(head, 0, cut.0));
        assert(start_line@ =~= first_line(head@));
        let mut headers = HeaderMap::new();
        let mut pos: usize = cut.1;
        while pos < head.len()
            invariant
                pos <= head@.len(),
                parse_fields(head@.skip(pos as int), headers@) == parse_fields(
                    after_first_line(head@),
                    Seq::empty(),
                ),
            decreases head@.len() - pos,
        {
            let rest = slice_subrange(head, pos, head.len());
            assert(rest@ =~= head@.skip(pos as int));
            let cut = split_line(rest);
            let line = slice_subrange(rest, 0, cut.0);
            assert(line@ =~= first_line(rest@));
            match read_field(line) {
                Some((name, value)) => {
                    headers.insert(name, value);
                },
                None => {},
            }
            assert(rest@.skip(cut.1 as int) =~= head@.skip(pos + cut.1));
            pos = pos + cut.1;
        }
        assert(head@.skip(pos as int).len() == 0);
        Some((Handshake { start_line, headers }, end + 4))
    }

    /// Writes the message out: the start line, one line per field in order,
    /// and the empty line that ends the block.
    pub fn encode(&self) -> (out: Vec<u8>)
        ensures
            out@ == encode_handshake(self@),
    {
        let mut buf: Vec<u8> = slice_to_vec(self.start_line.as_slice());
        buf.push(0x0d);
        buf.push(0x0a);
        assert(buf@ =~= self.start_line@ + crlf());
        let count = self.headers.len();
        let mut i: usize = 0;
        while i < count
            invariant
                i <= count,
                count == self.headers@.len(),
                buf@ == self.start_line@ + crlf() + field_block(self.headers@.take(i as int)),
            decreases count - i,
        {
            let field = self.headers.entry(i);
            let ghost before = buf@;
            let mut name = slice_to_vec(field.name.as_slice());
            let mut value = slice_to_vec(field.value.as_slice());
            buf.append(&mut name);
            buf.push(0x3a);
            buf.push(0x20);
            buf.append(&mut value);
            buf.push(0x0d);
            buf.push(0x0a);
            assert(buf@ =~= before + field_line(self.headers@[i as int]));
            assert(self.headers@.take(i + 1).drop_last() =~= self.headers@.take(i as int));
            assert(self.headers@.take(i + 1).last() == self.headers@[i as int]);
            i += 1;
        }
        assert(self.headers@.take(count as int) =~= self.headers@);
        buf.push(0x0d);
        buf.push(0x0a);
        assert(buf@ =~= encode_handshake(self@));
        buf
    }
}

} // verus!
