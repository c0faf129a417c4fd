//! The transport over a Unix socket: one line in, one line out.

use vstd::prelude::*;
use vstd::string::*;

use crate::error;
use crate::error::{invalid_request, Error, ErrorView};
use crate::secret::{FileKind, Lookup, LookupView};
use crate::text::join2;

verus! {

/// The most connections that are served at a time.
pub const MAX_CONCURRENT_CONNECTIONS: usize = 64;

/// The longest time that a request may take to arrive.
pub const REQUEST_READ_TIMEOUT_SECONDS: u64 = 5;

/// The byte that ends a line.
pub const NEWLINE: u8 = 10;

/// The number of bytes up to the end of the first line, its newline included, or all of them where
/// no line ends.
pub open spec fn line_length(bytes: Seq<u8>) -> int
    decreases bytes.len(),
{
    if bytes.len() == 0 {
        0
    } else if bytes[0] == NEWLINE {
        1
    } else {
        1 + line_length(bytes.skip(1))
    }
}

/// Bytes without a newline at their end.
pub open spec fn without_newline(bytes: Seq<u8>) -> Seq<u8> {
    if bytes.len() > 0 && bytes.last() == NEWLINE {
        bytes.drop_last()
    } else {
        bytes
    }
}

/// The first line of a stream, or the refusal of one that is longer than the limit, its newline
/// included.
pub open spec fn bounded_line(stream: Seq<u8>, limit: nat) -> Result<Seq<u8>, ErrorView> {
    if line_length(stream) > limit {
        Err(ErrorView::InvalidRequest("request exceeds configured byte limit"@))
    } else {
        Ok(without_newline(stream.take(line_length(stream))))
    }
}

/// What reading on comes to.
pub struct Progress {
    /// How many of the available bytes were taken.
    pub consumed: usize,
    /// Whether the line is complete.
    pub complete: bool,
}

/// The part of a line that was read, and the limit on its length.
pub struct LineReader {
    line: Vec<u8>,
    limit: usize,
}

/// The meaning of a [`LineReader`].
pub struct LineView {
    pub line: Seq<u8>,
    pub limit: usize,
}

impl View for LineReader {
    type V = LineView;

    closed spec fn view(&self) -> LineView {
        LineView { line: self.line@, limit: self.limit }
    }
}

/// What reading on comes to: the line as far as it is read, how many of the available bytes were
/// taken, and whether the line is complete. Where no bytes are available the stream has ended.
pub open spec fn line_step(line: Seq<u8>, available: Seq<u8>, limit: nat) -> Result<
    (Seq<u8>, int, bool),
    ErrorView,
> {
    let consumed = line_length(available);
    if available.len() == 0 {
        Ok((line, 0, true))
    } else if line.len() + consumed > limit {
        Err(ErrorView::InvalidRequest("request exceeds configured byte limit"@))
    } else {
        Ok(
            (
                line + without_newline(available.take(consumed)),
                consumed,
                available[consumed - 1] == NEWLINE,
            ),
        )
    }
}

pub(crate) proof fn lemma_line_length_at(bytes: Seq<u8>, at: int)
    requires
        0 <= at < bytes.len(),
        forall|i: int| 0 <= i < at ==> bytes[i] != NEWLINE,
        bytes[at] == NEWLINE,
    ensures
        line_length(bytes) == at + 1,
    decreases at,
{
    if at > 0 {
        assert(bytes.skip(1)[at - 1] == bytes[at]);
        assert forall|i: int| 0 <= i < at - 1 implies bytes.skip(1)[i] != NEWLINE by {
            assert(bytes.skip(1)[i] == bytes[i + 1]);
        }
        lemma_line_length_at(bytes.skip(1), at - 1);
    }
}

pub(crate) proof fn lemma_no_line_ends(bytes: Seq<u8>)
    requires
        forall|i: int| 0 <= i < bytes.len() ==> bytes[i] != NEWLINE,
    ensures
        line_length(bytes) == bytes.len(),
    decreases bytes.len(),
{
    if bytes.len() > 0 {
        assert forall|i: int| 0 <= i < bytes.skip(1).len() implies bytes.skip(1)[i] != NEWLINE by {
            assert(bytes.skip(1)[i] == bytes[i + 1]);
        }
        lemma_no_line_ends(bytes.skip(1));
    }
}

/// The number of bytes up to the end of the first line, or all of them.
fn first_line_length(bytes: &[u8]) -> (r: usize)
    ensures
        r == line_length(bytes@),
        r <= bytes@.len(),
        bytes@.len() > 0 ==> r > 0,
{
    let mut i: usize = 0;
    while i < bytes.len()
        invariant
            i <= bytes@.len(),
            forall|j: int| 0 <= j < i ==> bytes@[j] != NEWLINE,
        decreases bytes@.len() - i,
    {
        if bytes[i] == NEWLINE {
            proof {
                lemma_line_length_at(bytes@, i as int);
            }
            return i + 1;
        }
        i = i + 1;
    }
    proof {
        lemma_no_line_ends(bytes@);
    }
    i
}

impl LineReader {
    #[verifier::type_invariant]
    spec fn within_limit(&self) -> bool {
        self.line@.len() <= self.limit
    }

    /// Nothing read yet.
    pub fn new(limit: usize) -> (r: LineReader)
        ensures
            r@ == (LineView { line: Seq::empty(), limit }),
    {
        LineReader { line: Vec::new(), limit }
    }

    /// Reads on from the bytes that are available, none of them where the stream has ended.
    pub fn feed(&mut self, available: &[u8]) -> (r: Result<Progress, Error>)
        ensures
            match line_step(old(self)@.line, available@, old(self)@.limit as nat) {
                Err(error) => r matches Err(told) && told@ == error && final(self)@ == old(self)@,
                Ok((line, consumed, complete)) => {
                    &&& r matches Ok(progress) && progress.consumed == consumed && progress.complete
                        == complete
                    &&& final(self)@ == (LineView { line, limit: old(self)@.limit })
                },
            },
    {
        proof {
            use_type_invariant(&*self);
        }
        if available.len() == 0 {
            return Ok(Progress { consumed: 0, complete: true });
        }
        let consumed: usize = first_line_length(available);
        if consumed > self.limit - self.line.len() {
            return Err(invalid_request("request exceeds configured byte limit"));
        }
        let complete = available[consumed - 1] == NEWLINE;
        let taken: usize = if complete {
            consumed - 1
        } else {
            consumed
        };
        let mut line: Vec<u8> = Vec::new();
        std::mem::swap(&mut line, &mut self.line);
        let ghost before = line@;
        let part = vstd::slice::slice_subrange(available, 0, taken);
        line.extend_from_slice(part);
        assert(part@ =~= without_newline(available@.take(consumed as int)));
        assert(line@ =~= before + without_newline(available@.take(consumed as int)));
        self.line = line;
        Ok(Progress { consumed, complete })
    }

    /// The line as far as it was read, which is no longer than the limit.
    pub fn into_line(self) -> (r: Vec<u8>)
        ensures
            r@ == self@.line,
            r@.len() <= self@.limit,
    {
        proof {
            use_type_invariant(&self);
        }
        self.line
    }
}

/// All bytes of a sequence of pieces.
pub open spec fn joined(pieces: Seq<Seq<u8>>) -> Seq<u8>
    decreases pieces.len(),
{
    if pieces.len() == 0 {
        Seq::empty()
    } else {
        pieces[0] + joined(pieces.skip(1))
    }
}

/// What reading a line comes to where the stream arrives in pieces and then ends.
pub open spec fn line_run(line: Seq<u8>, pieces: Seq<Seq<u8>>, limit: nat) -> Result<
    Seq<u8>,
    ErrorView,
>
    decreases pieces.len(),
{
    if pieces.len() == 0 {
        Ok(line)
    } else {
        match line_step(line, pieces[0], limit) {
            Err(error) => Err(error),
            Ok((line, _, complete)) => if complete {
                Ok(line)
            } else {
                line_run(line, pieces.skip(1), limit)
            },
        }
    }
}

proof fn lemma_line_length_bounds(bytes: Seq<u8>)
    ensures
        0 <= line_length(bytes) <= bytes.len(),
        bytes.len() > 0 ==> line_length(bytes) > 0,
        forall|i: int| 0 <= i < line_length(bytes) - 1 ==> bytes[i] != NEWLINE,
        line_length(bytes) < bytes.len() ==> bytes[line_length(bytes) - 1] == NEWLINE,
    decreases bytes.len(),
{
    if bytes.len() > 0 && bytes[0] != NEWLINE {
        let rest = bytes.skip(1);
        lemma_line_length_bounds(rest);
        assert forall|i: int| 0 <= i < line_length(bytes) - 1 implies bytes[i] != NEWLINE by {
            if i > 0 {
                assert(rest[i - 1] == bytes[i]);
            }
        }
        if line_length(bytes) < bytes.len() {
            assert(rest[line_length(rest) - 1] == bytes[line_length(rest)]);
        }
    }
}

proof fn lemma_line_length_past(head: Seq<u8>, tail: Seq<u8>)
    requires
        forall|i: int| 0 <= i < head.len() ==> head[i] != NEWLINE,
    ensures
        line_length(head + tail) == head.len() + line_length(tail),
    decreases head.len(),
{
    if head.len() == 0 {
        assert(head + tail =~= tail);
    } else {
        assert((head + tail).skip(1) =~= head.skip(1) + tail);
        assert forall|i: int| 0 <= i < head.skip(1).len() implies head.skip(1)[i] != NEWLINE by {
            assert(head.skip(1)[i] == head[i + 1]);
        }
        lemma_line_length_past(head.skip(1), tail);
    }
}

proof fn lemma_line_run(line: Seq<u8>, pieces: Seq<Seq<u8>>, limit: nat)
    requires
        forall|i: int| 0 <= i < line.len() ==> line[i] != NEWLINE,
        line.len() <= limit,
        forall|i: int| 0 <= i < pieces.len() ==> (#[trigger] pieces[i]).len() > 0,
    ensures
        line_run(line, pieces, limit) == bounded_line(line + joined(pieces), limit),
    decreases pieces.len(),
{
    let stream = line + joined(pieces);
    lemma_line_length_past(line, joined(pieces));
    if pieces.len() == 0 {
        assert(stream =~= line);
        assert(stream.take(line_length(stream)) =~= line);
    } else {
        let piece = pieces[0];
        let rest = joined(pieces.skip(1));
        let consumed = line_length(piece);
        lemma_line_length_bounds(piece);
        lemma_line_length_bounds(rest);
        if piece[consumed - 1] == NEWLINE {
            assert(piece + rest =~= piece.take(consumed - 1) + (piece.skip(consumed - 1) + rest));
            lemma_line_length_past(piece.take(consumed - 1), piece.skip(consumed - 1) + rest);
            assert(line_length(joined(pieces)) == consumed);
            assert(stream.take(line_length(stream)) =~= line + piece.take(consumed));
            assert(without_newline(line + piece.take(consumed)) =~= line + without_newline(
                piece.take(consumed),
            ));
        } else {
            assert(consumed == piece.len());
            assert forall|i: int| 0 <= i < piece.len() implies piece[i] != NEWLINE by {
            }
            lemma_line_length_past(piece, rest);
            assert(piece.take(consumed) =~= piece);
            assert(line + joined(pieces) =~= (line + piece) + rest);
            if line.len() + consumed <= limit {
                assert forall|i: int| 0 <= i < pieces.skip(1).len() implies (
                #[trigger] pieces.skip(1)[i]).len() > 0 by {
                    assert(pieces.skip(1)[i] == pieces[i + 1]);
                }
                lemma_line_run(line + piece, pieces.skip(1), limit);
            }
        }
    }
}

/// How a stream is cut into pieces makes no difference: reading gives the first line of the whole
/// stream, or refuses it as too long.
pub proof fn lemma_line_does_not_depend_on_pieces(pieces: Seq<Seq<u8>>, limit: nat)
    requires
        forall|i: int| 0 <= i < pieces.len() ==> (#[trigger] pieces[i]).len() > 0,
    ensures
        line_run(Seq::empty(), pieces, limit) == bounded_line(joined(pieces), limit),
{
    lemma_line_run(Seq::empty(), pieces, limit);
    assert(Seq::<u8>::empty() + joined(pieces) =~= joined(pieces));
}

/// Whether a line asks for something. An empty one does not, and is not answered.
pub fn carries_request(line: &[u8]) -> (r: bool)
    ensures
        r == (line@.len() > 0),
{
    line.len() > 0
}

/// An encoded response as it is sent: with a newline behind it.
pub fn response_line(encoded: Vec<u8>) -> (r: Vec<u8>)
    ensures
        r@ == encoded@.push(NEWLINE),
{
    let mut line = encoded;
    line.push(NEWLINE);
    line
}

/// What is told where a request took too long to arrive.
pub fn read_timed_out() -> (r: Error)
    ensures
        r@ == ErrorView::InvalidRequest("request read timed out"@),
{
    invalid_request("request read timed out")
}

/// What is to be done about the path of the socket.
#[derive(Clone, Copy, Debug, PartialEq, Eq, Structural)]
pub enum SocketStep {
    /// Nothing is in the way.
    Bind,
    /// A socket from before is to be removed.
    Replace,
}

impl View for SocketStep {
    type V = SocketStep;

    open spec fn view(&self) -> SocketStep {
        *self
    }
}

/// What is to be done about the path of the socket, or why it cannot be used.
pub open spec fn socket_step(path: Seq<char>, found: LookupView) -> Result<SocketStep, ErrorView> {
    match found {
        LookupView::Present(facts) => if facts.kind == FileKind::Socket {
            Ok(SocketStep::Replace)
        } else {
            Err(
                ErrorView::Config(
                    "local socket path already exists and is not a socket: "@ + path,
                ),
            )
        },
        LookupView::Missing => Ok(SocketStep::Bind),
        LookupView::Failed(source) => Err(ErrorView::ReadFile { path, source }),
    }
}

/// Decides about the path of the socket: only a socket that is there already may be replaced.
pub fn prepare_socket(path: &str, found: &Lookup) -> (r: Result<SocketStep, Error>)
    ensures
        error::result_view(r) == socket_step(path@, found@),
{
    match found {
        Lookup::Present(facts) => {
            if facts.kind == FileKind::Socket {
                Ok(SocketStep::Replace)
            } else {
                Err(
                    Error::Config(
                        join2("local socket path already exists and is not a socket: ", path),
                    ),
                )
            }
        },
        Lookup::Missing => Ok(SocketStep::Bind),
        Lookup::Failed(source) => Err(
            Error::ReadFile { path: path.to_owned(), source: source.clone() },
        ),
    }
}

} // verus!
