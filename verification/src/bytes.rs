//! Bytes as text, and compressed bytes.
use crate::text;
use flate2::read::GzDecoder;
use std::io::Read;
use vstd::prelude::*;
use vstd::string::*;
use vstd::utf8::*;

verus! {

/// What `String::from_utf8_lossy` makes of bytes.
pub uninterp spec fn lossy_text(b: Seq<u8>) -> Seq<char>;

/// `String::from_utf8_lossy`: the bytes as text, with a replacement character where
/// they are not UTF-8. Bytes that are UTF-8 give the text that they encode.
#[verifier::external_body]
pub(crate) fn lossy(b: &[u8]) -> (r: String)
    ensures
        r@ == lossy_text(b@),
        valid_utf8(b@) ==> r@ == decode_utf8(b@),
{
    String::from_utf8_lossy(b).into_owned()
}

/// The bytes as characters, with a replacement character where they are not UTF-8.
pub fn shown(b: &[u8]) -> (r: Vec<char>)
    ensures
        r@ == lossy_text(b@),
        valid_utf8(b@) ==> r@ == decode_utf8(b@),
{
    let t = lossy(b);
    text::chars_of(t.as_str())
}

/// `std::str::from_utf8`: the text that the bytes encode, where they are UTF-8.
#[verifier::external_body]
pub(crate) fn decoded(b: &[u8]) -> (r: Option<String>)
    ensures
        r is Some <==> valid_utf8(b@),
        r matches Some(s) ==> s@ == decode_utf8(b@),
{
    std::str::from_utf8(b).ok().map(String::from)
}

/// What `flate2` decodes from the bytes of a gzip file, up to the first fault, and
/// whether it found none.
pub uninterp spec fn gunzipped(b: Seq<u8>) -> (Seq<u8>, bool);

/// `flate2::read::GzDecoder`, read to its end: the decoded bytes of the first member of
/// a gzip file, up to the first fault, and whether there was none. The format itself is
/// not stated.
#[verifier::external_body]
pub(crate) fn gunzip(b: &[u8]) -> (r: (Vec<u8>, bool))
    ensures
        (r.0@, r.1) == gunzipped(b@),
{
    let mut out: Vec<u8> = Vec::new();
    let whole = GzDecoder::new(b).read_to_end(&mut out).is_ok();
    (out, whole)
}

/// The pieces of `b` between its line feeds.
pub open spec fn byte_pieces(b: Seq<u8>) -> Seq<Seq<u8>>
    decreases b.len(),
{
    if b.len() == 0 {
        seq![Seq::<u8>::empty()]
    } else {
        let before = byte_pieces(b.drop_last());
        if b.last() == 0x0a {
            before.push(Seq::<u8>::empty())
        } else {
            before.update(before.len() - 1, before.last().push(b.last()))
        }
    }
}

/// The lines among the pieces that line feeds end: those that are UTF-8, each without
/// the carriage return that belongs to its line ending.
pub open spec fn ended_lines(parts: Seq<Seq<u8>>) -> Seq<Seq<char>>
    decreases parts.len(),
{
    if parts.len() == 0 {
        Seq::empty()
    } else if valid_utf8(parts.last()) {
        ended_lines(parts.drop_last()).push(text::without_return(decode_utf8(parts.last())))
    } else {
        ended_lines(parts.drop_last())
    }
}

/// The lines that can be read from bytes. What stands behind the last line feed is a
/// line where something does and the bytes are `whole`. Lines that are not UTF-8 are
/// passed over.
pub open spec fn read_lines(b: Seq<u8>, whole: bool) -> Seq<Seq<char>> {
    let parts = byte_pieces(b);
    let ended = ended_lines(parts.drop_last());
    if whole && parts.last().len() > 0 && valid_utf8(parts.last()) {
        ended.push(decode_utf8(parts.last()))
    } else {
        ended
    }
}

/// The lines that can be read from bytes.
pub fn lines_read(b: &[u8], whole: bool) -> (r: Vec<Vec<char>>)
    ensures
        text::texts(r@) == read_lines(b@, whole),
{
    let mut r: Vec<Vec<char>> = Vec::new();
    let mut current: Vec<u8> = Vec::new();
    let ghost mut done: Seq<Seq<u8>> = Seq::empty();
    let mut i: usize = 0;
    assert(b@.take(0) =~= Seq::<u8>::empty());
    assert(done.push(current@) =~= byte_pieces(b@.take(0)));
    assert(text::texts(r@) =~= ended_lines(done));
    while i < b.len()
        invariant
            i <= b@.len(),
            done.push(current@) == byte_pieces(b@.take(i as int)),
            text::texts(r@) == ended_lines(done),
        decreases b@.len() - i,
    {
        let ghost before = byte_pieces(b@.take(i as int));
        assert(b@.take(i + 1).drop_last() =~= b@.take(i as int));
        if b[i] == 0x0a {
            let ghost lines = text::texts(r@);
            match decoded(current.as_slice()) {
                Some(line) => {
                    let mut chars = text::chars_of(line.as_str());
                    if chars.len() > 0 && chars[chars.len() - 1] == '\r' {
                        let ghost with = chars@;
                        chars.pop();
                        assert(chars@ =~= with.drop_last());
                    }
                    r.push(chars);
                    assert(text::texts(r@) =~= lines.push(chars@));
                },
                None => {},
            }
            proof {
                let ended = done;
                done = ended.push(current@);
                assert(done.drop_last() =~= ended);
                assert(done =~= before);
            }
            current = Vec::new();
            assert(done.push(current@) =~= before.push(Seq::<u8>::empty()));
        } else {
            let ghost held = current@;
            current.push(b[i]);
            assert(done.push(current@) =~= before.update(before.len() - 1, held.push(b@[i as int])));
        }
        i += 1;
    }
    assert(b@.take(b@.len() as int) =~= b@);
    assert(byte_pieces(b@).drop_last() =~= done);
    assert(byte_pieces(b@).last() == current@);
    if whole && current.len() > 0 {
        match decoded(current.as_slice()) {
            Some(line) => {
                let ghost lines = text::texts(r@);
                let chars = text::chars_of(line.as_str());
                r.push(chars);
                assert(text::texts(r@) =~= lines.push(chars@));
            },
            None => {},
        }
    }
    r
}

/// Bytes that hold no line feed stand in the last piece.
proof fn pieces_go_on(a: Seq<u8>, line: Seq<u8>)
    requires
        a.len() > 0 ==> a.last() == 0x0a,
        !line.contains(0x0a),
    ensures
        byte_pieces(a).len() > 0,
        byte_pieces(a).last().len() == 0,
        byte_pieces(a + line) == byte_pieces(a).drop_last().push(line),
    decreases line.len(),
{
    if line.len() == 0 {
        assert(a + line =~= a);
        if a.len() > 0 {
            assert(byte_pieces(a).last() =~= Seq::<u8>::empty());
        }
        assert(byte_pieces(a).last() =~= line);
        assert(byte_pieces(a) =~= byte_pieces(a).drop_last().push(line));
    } else {
        let head = line.drop_last();
        let s = a + line;
        assert(!head.contains(0x0a)) by {
            if head.contains(0x0a) {
                let i = choose|i: int| 0 <= i < head.len() && head[i] == 0x0a;
                assert(line[i] == 0x0a);
            }
        }
        pieces_go_on(a, head);
        assert(s.drop_last() =~= a + head);
        assert(s.last() == line.last());
        assert(line.contains(line.last()));
        let before = byte_pieces(a + head);
        assert(before.last() == head);
        assert(head.push(line.last()) =~= line);
        assert(byte_pieces(s) =~= byte_pieces(a).drop_last().push(line));
    }
}

/// What is read is read line by line: a line that is ended adds what it holds, one that is
/// not does so where the reading came to the end, and bytes that are no text add nothing.
pub proof fn lines_are_read_one_by_one(a: Seq<u8>, line: Seq<u8>, whole: bool)
    requires
        a.len() > 0 ==> a.last() == 0x0a,
        !line.contains(0x0a),
    ensures
        read_lines(Seq::empty(), whole).len() == 0,
        valid_utf8(line) ==> read_lines((a + line).push(0x0a), whole) == read_lines(a, whole).push(
            text::without_return(decode_utf8(line)),
        ),
        !valid_utf8(line) ==> read_lines((a + line).push(0x0a), whole) == read_lines(a, whole),
        whole && line.len() > 0 && valid_utf8(line) ==> read_lines(a + line, whole) == read_lines(
            a,
            whole,
        ).push(decode_utf8(line)),
        !whole || !valid_utf8(line) ==> read_lines(a + line, whole) == read_lines(a, whole),
{
    let none = Seq::<u8>::empty();
    assert(byte_pieces(none) =~= seq![none]);
    assert(byte_pieces(none).drop_last() =~= Seq::<Seq<u8>>::empty());
    pieces_go_on(a, line);
    pieces_go_on(a, none);
    assert(a + none =~= a);
    let head = byte_pieces(a).drop_last();
    let s = (a + line).push(0x0a);
    assert(s.drop_last() =~= a + line);
    assert(byte_pieces(s) == byte_pieces(a + line).push(none));
    assert(byte_pieces(s).drop_last() =~= head.push(line));
    assert(head.push(line).drop_last() =~= head);
    assert(byte_pieces(a + line).drop_last() =~= head);
    assert(byte_pieces(a + line).last() == line);
    assert(byte_pieces(s).last() == none);
}

} // verus!
