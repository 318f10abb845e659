//! The frame decoder and encoder of a connection: complete lines are cut out
//! of the growing input buffer, and each response goes out followed by a
//! newline.
use crate::buffer::{buf_append, buf_contents, buf_drain_to, buf_slice};
use crate::line::{opt_view, parse_line, parse_spec};
use tokio_core::io::EasyBuf;
use vstd::prelude::*;
use vstd::utf8::{decode_utf8, encode_utf8, valid_utf8};

verus! {

/// The line terminator.
pub const NEWLINE: u8 = 10;

/// A request: the connection's description, the command name and the
/// optional argument.
pub type Request = (String, String, Option<String>);

/// A line that is not valid UTF-8; the connection cannot go on.
#[derive(Debug, Clone, Copy, PartialEq, Eq, Structural)]
pub struct DecodeError;

/// The index of the first newline of `buf` at or after `i`.
pub open spec fn newline_from(buf: Seq<u8>, i: int) -> Option<int>
    decreases buf.len() - i,
{
    if i < 0 || i >= buf.len() {
        None
    } else if buf[i] == NEWLINE {
        Some(i)
    } else {
        newline_from(buf, i + 1)
    }
}

/// The line that one decoding step cuts out of `buf` when the search starts at
/// `offset`: the bytes before the newline found, if one is found.
pub open spec fn line_of(buf: Seq<u8>, offset: int) -> Option<Seq<u8>> {
    match newline_from(buf, offset) {
        Some(k) => Some(buf.take(k)),
        None => None,
    }
}

/// The buffer after one decoding step: what follows the newline found, or
/// the buffer unchanged when none is found.
pub open spec fn buffer_after(buf: Seq<u8>, offset: int) -> Seq<u8> {
    match newline_from(buf, offset) {
        Some(k) => buf.skip(k + 1),
        None => buf,
    }
}

/// The search offset after one decoding step: back to the start once a line
/// was cut out, else the end of the buffer, so that no byte is searched twice.
pub open spec fn offset_after(buf: Seq<u8>, offset: int) -> int {
    match newline_from(buf, offset) {
        Some(_) => 0,
        None => buf.len() as int,
    }
}

/// `q` is the request that a line with the characters `text` makes on a
/// connection described by `info`.
pub open spec fn is_request_for(q: Request, info: Seq<char>, text: Seq<char>) -> bool {
    q.0@ == info && (q.1@, opt_view(q.2)) == parse_spec(text)
}

/// Relies on `std::str::from_utf8`: the bytes as text when they are valid
/// UTF-8, and an error otherwise.
#[verifier::external_body]
fn utf8_text(b: &[u8]) -> (r: Option<&str>)
    ensures
        r is Some <==> valid_utf8(b@),
        r matches Some(s) ==> s@ == decode_utf8(b@),
{
    match std::str::from_utf8(b) {
        Ok(s) => Some(s),
        Err(_) => None,
    }
}

/// The index of the first newline of `bytes` at or after `from`.
fn find_newline(bytes: &[u8], from: usize) -> (r: Option<usize>)
    ensures
        match r {
            Some(k) => newline_from(bytes@, from as int) == Some(k as int) && k < bytes@.len(),
            None => newline_from(bytes@, from as int) is None,
        },
{
    let n = bytes.len();
    let mut i: usize = from;
    while i < n
        invariant
            n == bytes@.len(),
            from <= i,
            newline_from(bytes@, from as int) == newline_from(bytes@, i as int),
        decreases n - i,
    {
        if bytes[i] == NEWLINE {
            return Some(i);
        }
        i = i + 1;
    }
    None
}

/// The newline search ends at a newline that no earlier byte from `i` on is.
pub proof fn lemma_newline_from_bounds(buf: Seq<u8>, i: int)
    requires
        0 <= i,
    ensures
        match newline_from(buf, i) {
            Some(k) => i <= k < buf.len() && buf[k] == NEWLINE && forall|j: int|
                i <= j < k ==> buf[j] != NEWLINE,
            None => forall|j: int| i <= j < buf.len() ==> buf[j] != NEWLINE,
        },
    decreases buf.len() - i,
{
    if i < buf.len() && buf[i] != NEWLINE {
        lemma_newline_from_bounds(buf, i + 1);
    }
}

#[via_fn]
proof fn drain_decreases(buf: Seq<u8>, offset: int) {
    if offset >= 0 {
        lemma_newline_from_bounds(buf, offset);
    }
}

/// Decoding steps repeated until one finds no newline, from a buffer and a
/// search offset: the lines cut out, the buffer left and the offset left.
pub open spec fn drain(buf: Seq<u8>, offset: int) -> (Seq<Seq<u8>>, Seq<u8>, int)
    decreases buf.len(),
    via drain_decreases
{
    match newline_from(buf, offset) {
        Some(k) => {
            let rest = drain(buf.skip(k + 1), 0);
            (seq![buf.take(k)] + rest.0, rest.1, rest.2)
        },
        None => (Seq::empty(), buf, buf.len() as int),
    }
}

/// The lines cut out when the chunks arrive one after another and, after
/// each, lines are decoded until none is complete.
pub open spec fn lines_from_chunks(buf: Seq<u8>, offset: int, chunks: Seq<Seq<u8>>) -> Seq<
    Seq<u8>,
>
    decreases chunks.len(),
{
    if chunks.len() == 0 {
        Seq::empty()
    } else {
        let d = drain(buf + chunks[0], offset);
        d.0 + lines_from_chunks(d.1, d.2, chunks.drop_first())
    }
}

proof fn lemma_no_newline_none(buf: Seq<u8>, i: int)
    requires
        0 <= i,
        forall|j: int| i <= j < buf.len() ==> buf[j] != NEWLINE,
    ensures
        newline_from(buf, i) is None,
    decreases buf.len() - i,
{
    if i < buf.len() {
        lemma_no_newline_none(buf, i + 1);
    }
}

proof fn lemma_empty_chunks(chunks: Seq<Seq<u8>>)
    requires
        chunks.flatten() == Seq::<u8>::empty(),
    ensures
        lines_from_chunks(Seq::empty(), 0, chunks) == Seq::<Seq<u8>>::empty(),
    decreases chunks.len(),
{
    if chunks.len() > 0 {
        assert(chunks[0].len() == 0 && chunks.drop_first().flatten().len() == 0) by {
            assert(chunks.flatten() == chunks[0] + chunks.drop_first().flatten());
        }
        let b = Seq::<u8>::empty() + chunks[0];
        assert(b =~= Seq::<u8>::empty());
        assert(drain(b, 0) == (Seq::<Seq<u8>>::empty(), Seq::<u8>::empty(), 0int));
        lemma_empty_chunks(chunks.drop_first());
        assert(chunks.drop_first().flatten() =~= Seq::<u8>::empty());
    }
}

proof fn lemma_one_line_rest(line: Seq<u8>, buf: Seq<u8>, chunks: Seq<Seq<u8>>)
    requires
        forall|j: int| 0 <= j < line.len() ==> line[j] != NEWLINE,
        forall|j: int| 0 <= j < buf.len() ==> buf[j] != NEWLINE,
        buf + chunks.flatten() == line.push(NEWLINE),
    ensures
        lines_from_chunks(buf, buf.len() as int, chunks) == seq![line],
    decreases chunks.len(),
{
    let whole = line.push(NEWLINE);
    if chunks.len() == 0 {
        assert(buf + chunks.flatten() =~= buf);
        assert(whole[line.len() as int] == NEWLINE);
    } else {
        let c = chunks[0];
        let tail = chunks.drop_first();
        let b = buf + c;
        assert(chunks.flatten() == c + tail.flatten());
        assert(b + tail.flatten() =~= whole);
        assert(forall|j: int| 0 <= j < b.len() ==> b[j] == whole[j]);
        if b.len() > line.len() {
            lemma_newline_from_bounds(b, buf.len() as int);
            
            assert(b[line.len() as int] == NEWLINE);
            assert(b.len() == line.len() + 1) by {
                assert(b.len() + tail.flatten().len() == line.len() + 1);
            }
            assert(forall|j: int| buf.len() <= j < line.len() ==> b[j] != NEWLINE);
            assert(newline_from(b, buf.len() as int) == Some(line.len() as int));
            assert(b.take(line.len() as int) =~= line);
            assert(b.skip(line.len() as int + 1) =~= Seq::<u8>::empty());
            assert(drain(Seq::<u8>::empty(), 0) == (
                Seq::<Seq<u8>>::empty(),
                Seq::<u8>::empty(),
                0int,
            ));
            assert(tail.flatten() =~= Seq::<u8>::empty());
            lemma_empty_chunks(tail);
            assert(seq![line] + Seq::<Seq<u8>>::empty() =~= seq![line]);
        } else {
            assert(forall|j: int| 0 <= j < b.len() ==> b[j] != NEWLINE);
            lemma_no_newline_none(b, buf.len() as int);
            lemma_one_line_rest(line, b, tail);
            assert(Seq::<Seq<u8>>::empty() + seq![line] =~= seq![line]);
        }
    }
}

/// A single terminated line comes out of the decoder as that one line
/// however its bytes are cut into chunks, down to one byte per chunk: fed
/// chunk by chunk to a fresh decoder, decoding after each chunk until no line
/// is complete, they give what the whole sequence gives as one chunk.  The
/// request made of a line depends on the line alone, so the same request (or
/// the same decoding error) comes out.
pub proof fn lemma_chunking_independent(line: Seq<u8>, chunks: Seq<Seq<u8>>)
    requires
        forall|j: int| 0 <= j < line.len() ==> line[j] != NEWLINE,
        chunks.flatten() == line.push(NEWLINE),
    ensures
        lines_from_chunks(Seq::empty(), 0, chunks) == seq![line],
        lines_from_chunks(Seq::empty(), 0, chunks) == lines_from_chunks(
            Seq::empty(),
            0,
            seq![line.push(NEWLINE)],
        ),
{
    assert(Seq::<u8>::empty() + chunks.flatten() =~= line.push(NEWLINE));
    lemma_one_line_rest(line, Seq::empty(), chunks);
    let single = seq![line.push(NEWLINE)];
    assert(single.flatten() =~= line.push(NEWLINE)) by {
        single.lemma_flatten_one_element();
    }
    assert(Seq::<u8>::empty() + single.flatten() =~= line.push(NEWLINE));
    lemma_one_line_rest(line, Seq::empty(), single);
}

/// The decoder and encoder of one connection.
pub struct CliCodec {
    /// Description of the connection, handed to every request.
    pub info: String,
    /// How far the input buffer has been searched for a newline.
    pub search_offset: usize,
}

impl CliCodec {
    /// A codec for a connection with the given description.
    pub fn new(io_info: String) -> (r: CliCodec)
        ensures
            r.info == io_info,
            r.search_offset == 0,
    {
        CliCodec { info: io_info, search_offset: 0 }
    }

    /// Appends bytes that arrived on the connection to its input buffer.
    pub fn feed(buf: &mut EasyBuf, chunk: &[u8])
        ensures
            buf_contents(*final(buf)) == buf_contents(*old(buf)) + chunk@,
    {
        buf_append(buf, chunk)
    }

    /// Cuts the next complete line out of `buf` and turns it into a request.
    /// Only the bytes from the search offset on are searched.  When no newline
    /// is there, the buffer stays as it is, the offset moves to its end and
    /// `Ok(None)` comes back.  Otherwise the line and its newline leave the
    /// buffer, the offset goes back to 0, and the line, decoded as UTF-8,
    /// trimmed and split, is the request; a line that is not UTF-8 is an error.
    pub fn decode(&mut self, buf: &mut EasyBuf) -> (r: Result<Option<Request>, DecodeError>)
        ensures
            final(self).info == old(self).info,
            buf_contents(*final(buf)) == buffer_after(
                buf_contents(*old(buf)),
                old(self).search_offset as int,
            ),
            final(self).search_offset as int == offset_after(
                buf_contents(*old(buf)),
                old(self).search_offset as int,
            ),
            r matches Ok(Some(_)) ==> final(self).search_offset == 0,
            match line_of(buf_contents(*old(buf)), old(self).search_offset as int) {
                None => r matches Ok(None),
                Some(p) => if valid_utf8(p) {
                    r matches Ok(Some(q)) && is_request_for(q, old(self).info@, decode_utf8(p))
                } else {
                    r matches Err(DecodeError)
                },
            },
    {
        let found = find_newline(buf_slice(buf), self.search_offset);
        match found {
            Some(k) => {
                let line = buf_drain_to(buf, k);
                let _terminator = buf_drain_to(buf, 1);
                proof {
                    let old_bytes = buf_contents(*old(buf));
                    assert(old_bytes.skip(k as int).skip(1) =~= old_bytes.skip(k + 1));
                }
                self.search_offset = 0;
                match utf8_text(buf_slice(&line)) {
                    Some(s) => {
                        let (name, arg) = parse_line(s);
                        Ok(Some((self.info.clone(), name, arg)))
                    },
                    None => Err(DecodeError),
                }
            },
            None => {
                self.search_offset = buf_slice(buf).len();
                Ok(None)
            },
        }
    }

    /// Appends the response and one newline to the outgoing bytes.
    pub fn encode(&mut self, msg: String, buf: &mut Vec<u8>)
        ensures
            final(buf)@ == old(buf)@ + encode_utf8(msg@).push(NEWLINE),
            *final(self) == *old(self),
    {
        let bytes = msg.as_str().as_bytes();
        let mut i: usize = 0;
        while i < bytes.len()
            invariant
                i <= bytes@.len(),
                bytes@ == encode_utf8(msg@),
                buf@ == old(buf)@ + bytes@.take(i as int),
            decreases bytes@.len() - i,
        {
            buf.push(bytes[i]);
            assert(bytes@.take(i + 1) =~= bytes@.take(i as int).push(bytes@[i as int]));
            i = i + 1;
        }
        assert(bytes@.take(bytes@.len() as int) =~= bytes@);
        buf.push(NEWLINE);
        assert(old(buf)@ + bytes@ + seq![NEWLINE] =~= old(buf)@ + bytes@.push(NEWLINE));
    }
}

} // verus!
