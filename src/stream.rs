//! The scanner itself: a buffer of unread text, the delimiter configuration,
//! and the operations that take tokens and lines off the front of the buffer.
//!
//! Every operation is specified by a step function over [`StreamView`]; each
//! step removes the text up to and including the boundary character, so a
//! step on a non-empty buffer always shortens it. What a step leaves in the
//! buffer never starts with a newline or with the delimiter.
//!
//! The stream never reads on its own: an interactive stream (one made by
//! [`IStream::new`]) is fed by its caller through [`IStream::feed_line`]
//! whenever [`IStream::needs_input`] says so.
use vstd::prelude::*;
use crate::text::{
    chars_of, copy_range, find_char, find_in, lemma_find_char,
    drop_leading_newlines, lemma_settled, lemma_trim_newlines, lemma_trim_ws_bounds,
    lemma_trim_ws_no_newline, lemma_without_char_absent, spec_is_whitespace, string_of, trim_by,
    trim_newlines, trim_rule, trim_ws, without_char,
};
use crate::token::{view_opt, FromToken};

verus! {

/// The abstract state of a stream.
pub struct StreamView {
    /// Text not yet consumed.
    pub buf: Seq<char>,
    /// Whether the stream expects to be fed lines from an outside source.
    pub interactive: bool,
    /// The character that separates tokens.
    pub delim: char,
    /// When true, a newline is not a token boundary.
    pub ignore_endl: bool,
}

/// `s` with its buffer replaced by `buf`.
pub open spec fn with_buf(s: StreamView, buf: Seq<char>) -> StreamView {
    StreamView { buf, ..s }
}

/// Where the next token ends: the first delimiter, or the first newline if
/// that comes earlier and newlines are not ignored; the buffer's length when
/// there is neither.
pub open spec fn boundary(s: StreamView) -> nat {
    let d = find_char(s.buf, s.delim);
    let n = find_char(s.buf, '\n');
    if s.ignore_endl || d <= n {
        d
    } else {
        n
    }
}

/// What is left of `buf` after the boundary character at `b` (nothing when
/// `b` is the end).
pub open spec fn rest_after(buf: Seq<char>, b: int) -> Seq<char> {
    if b < buf.len() {
        buf.subrange(b + 1, buf.len() as int)
    } else {
        Seq::empty()
    }
}

/// Cuts the buffer at `b`: the new state keeps what follows the boundary,
/// trimmed by the delimiter's rule and then of its leading newlines; the
/// result is the whitespace-trimmed head.
pub open spec fn cut(s: StreamView, b: int) -> (StreamView, Option<Seq<char>>) {
    (
        with_buf(s, trim_newlines(trim_rule(rest_after(s.buf, b), s.delim))),
        Some(trim_ws(s.buf.subrange(0, b))),
    )
}

/// The buffer does not start with a newline or with the delimiter.
pub open spec fn settled(s: StreamView) -> bool {
    s.buf.len() > 0 ==> s.buf[0] != '\n' && s.buf[0] != s.delim
}

/// Taking one token: nothing on an empty buffer, else the text up to the boundary.
pub open spec fn token_step(s: StreamView) -> (StreamView, Option<Seq<char>>) {
    if s.buf.len() == 0 {
        (s, None)
    } else {
        cut(s, boundary(s) as int)
    }
}

/// Taking one line: nothing on an empty buffer, else the text up to the first
/// newline, whatever the delimiter and whether newlines are ignored.
pub open spec fn line_step(s: StreamView) -> (StreamView, Option<Seq<char>>) {
    if s.buf.len() == 0 {
        (s, None)
    } else {
        cut(s, find_char(s.buf, '\n') as int)
    }
}

/// Taking one token and reading it as a `T`.
pub open spec fn parse_step<T: FromToken>(s: StreamView) -> (StreamView, Option<T::V>) {
    match token_step(s).1 {
        Some(tok) => (token_step(s).0, T::token_value(tok)),
        None => (s, None),
    }
}

/// Taking tokens until one reads as a `T`, or the buffer is empty.
pub open spec fn valid_step<T: FromToken>(s: StreamView) -> (StreamView, Option<T::V>)
    decreases s.buf.len(),
    via valid_step_decreases::<T>
{
    if s.buf.len() == 0 {
        (s, None)
    } else {
        let (s2, v) = parse_step::<T>(s);
        if v is Some || s2.buf.len() == 0 {
            (s2, v)
        } else {
            valid_step::<T>(s2)
        }
    }
}

#[via_fn]
proof fn valid_step_decreases<T: FromToken>(s: StreamView) {
    lemma_token_step_shrinks(s);
}

/// Discarding `n` tokens.
pub open spec fn skip_steps(s: StreamView, n: nat) -> StreamView
    decreases n,
{
    if n == 0 {
        s
    } else {
        skip_steps(token_step(s).0, (n - 1) as nat)
    }
}

pub proof fn lemma_cut_shrinks(s: StreamView, b: int)
    requires
        0 <= b <= s.buf.len(),
        s.buf.len() > 0,
    ensures
        cut(s, b).0.buf.len() < s.buf.len(),
        settled(cut(s, b).0),
{
    lemma_settled(rest_after(s.buf, b), s.delim);
}

pub proof fn lemma_token_step_shrinks(s: StreamView)
    ensures
        s.buf.len() > 0 ==> token_step(s).0.buf.len() < s.buf.len(),
{
    lemma_find_char(s.buf, s.delim);
    lemma_find_char(s.buf, '\n');
    if s.buf.len() > 0 {
        lemma_cut_shrinks(s, boundary(s) as int);
    }
}

/// A buffered text stream that hands out tokens and lines.
pub struct IStream {
    buf: Vec<char>,
    std_in: bool,
    delim: char,
    ignore_endl: bool,
}

impl View for IStream {
    type V = StreamView;

    closed spec fn view(&self) -> StreamView {
        StreamView {
            buf: self.buf@,
            interactive: self.std_in,
            delim: self.delim,
            ignore_endl: self.ignore_endl,
        }
    }
}

impl IStream {
    /// An empty interactive stream, splitting on blanks and newlines.
    pub fn new() -> (r: IStream)
        ensures
            r@ == (StreamView {
                buf: Seq::empty(),
                interactive: true,
                delim: ' ',
                ignore_endl: false,
            }),
    {
        IStream { buf: Vec::new(), std_in: true, delim: ' ', ignore_endl: false }
    }

    /// A stream over the fixed text `s`, splitting on blanks and newlines.
    /// It is never fed more text.
    pub fn from_text(s: &str) -> (r: IStream)
        ensures
            r@ == (StreamView { buf: s@, interactive: false, delim: ' ', ignore_endl: false }),
    {
        IStream { buf: chars_of(s), std_in: false, delim: ' ', ignore_endl: false }
    }

    /// Position of the first newline in the buffer, or its length.
    fn next_endl(&self) -> (r: usize)
        ensures
            r == find_char(self@.buf, '\n'),
            r <= self@.buf.len(),
    {
        proof {
            lemma_find_char(self@.buf, '\n');
        }
        find_in(self.buf.as_slice(), '\n')
    }

    /// Where the next token ends.
    fn next_split(&self) -> (r: usize)
        ensures
            r == boundary(self@),
            r <= self@.buf.len(),
    {
        proof {
            lemma_find_char(self@.buf, self@.delim);
            lemma_find_char(self@.buf, '\n');
        }
        let d = find_in(self.buf.as_slice(), self.delim);
        if self.ignore_endl {
            d
        } else {
            let n = self.next_endl();
            if d <= n {
                d
            } else {
                n
            }
        }
    }

    /// `s` trimmed by the rule of the current delimiter.
    fn trim_to_owned(&self, s: &[char]) -> (r: Vec<char>)
        ensures
            r@ == trim_rule(s@, self@.delim),
    {
        trim_by(s, self.delim)
    }

    /// Cuts the buffer at `b`, returning the trimmed head.
    fn cut_at(&mut self, b: usize) -> (head: Vec<char>)
        requires
            b <= old(self)@.buf.len(),
        ensures
            cut(old(self)@, b as int) == (final(self)@, Some(head@)),
            settled(final(self)@),
    {
        proof {
            lemma_settled(rest_after(self@.buf, b as int), self@.delim);
        }
        let n = self.buf.len();
        let head = copy_range(self.buf.as_slice(), 0, b);
        let rest = if b < n {
            copy_range(self.buf.as_slice(), b + 1, n)
        } else {
            Vec::new()
        };
        let trimmed = self.trim_to_owned(rest.as_slice());
        self.buf = drop_leading_newlines(trimmed.as_slice());
        crate::text::trim(head.as_slice())
    }

    /// Sets whether newlines are ignored as token boundaries.
    pub fn ignore_endl(&mut self, ignore: bool)
        ensures
            final(self)@ == (StreamView { ignore_endl: ignore, ..old(self)@ }),
    {
        self.ignore_endl = ignore;
    }

    /// Sets the character that separates tokens.
    pub fn use_delim(&mut self, delim: char)
        ensures
            final(self)@ == (StreamView { delim, ..old(self)@ }),
    {
        self.delim = delim;
    }

    /// Whether the stream waits for a line from its outside source: it is
    /// interactive and its buffer is empty.
    pub fn needs_input(&self) -> (r: bool)
        ensures
            r == (self@.interactive && self@.buf.len() == 0),
    {
        self.std_in && self.buf.len() == 0
    }

    /// Appends a line read from the outside source to the buffer of an
    /// interactive stream. A stream over fixed text is never fed.
    pub fn feed_line(&mut self, line: &str)
        requires
            old(self)@.interactive,
        ensures
            final(self)@ == with_buf(old(self)@, old(self)@.buf + line@),
    {
        let mut cs = chars_of(line);
        self.buf.append(&mut cs);
    }

    /// Takes the next token, trimmed of whitespace at its edges; `None` when
    /// the buffer is empty. An interactive stream is not refilled here: feed it
    /// first.
    pub fn next_token(&mut self) -> (r: Option<String>)
        ensures
            token_step(old(self)@) == (final(self)@, view_opt(r)),
            old(self)@.buf.len() > 0 ==> final(self)@.buf.len() < old(self)@.buf.len(),
            final(self)@.buf.len() > 0 ==> final(self)@.buf[0] != '\n' && final(self)@.buf[0]
                != final(self)@.delim,
    {
        proof {
            lemma_token_step_shrinks(self@);
        }
        if self.buf.len() == 0 {
            return None;
        }
        let b = self.next_split();
        let tok = self.cut_at(b);
        Some(string_of(tok.as_slice()))
    }

    /// Takes the next token and reads it as a `T`. The token is consumed
    /// whether or not it reads; `None` when it does not, or when the buffer is
    /// empty. An interactive stream is not refilled here: feed it first.
    pub fn next<T: FromToken>(&mut self) -> (r: Option<T>)
        ensures
            parse_step::<T>(old(self)@) == (final(self)@, view_opt(r)),
            old(self)@.buf.len() > 0 ==> final(self)@.buf.len() < old(self)@.buf.len(),
            final(self)@.buf.len() > 0 ==> final(self)@.buf[0] != '\n' && final(self)@.buf[0]
                != final(self)@.delim,
    {
        proof {
            lemma_token_step_shrinks(self@);
        }
        if self.buf.len() == 0 {
            return None;
        }
        let b = self.next_split();
        let tok = self.cut_at(b);
        T::from_token(tok.as_slice())
    }

    /// Takes the rest of the current line, trimmed of whitespace at its
    /// edges. Only a newline ends a line, whatever the delimiter and whether
    /// newlines are ignored as token boundaries. `None` when the buffer is
    /// empty; an interactive stream is not refilled here: feed it first.
    pub fn next_line(&mut self) -> (r: Option<String>)
        ensures
            line_step(old(self)@) == (final(self)@, view_opt(r)),
            old(self)@.buf.len() > 0 ==> final(self)@.buf.len() < old(self)@.buf.len(),
            final(self)@.buf.len() > 0 ==> final(self)@.buf[0] != '\n' && final(self)@.buf[0]
                != final(self)@.delim,
    {
        if self.buf.len() == 0 {
            return None;
        }
        let b = self.next_endl();
        proof {
            lemma_cut_shrinks(self@, b as int);
        }
        let line = self.cut_at(b);
        Some(string_of(line.as_slice()))
    }

    /// Takes tokens until one reads as a `T` and returns it; every token that
    /// does not read is discarded. `None` when the buffer runs out first, which
    /// leaves it empty. An interactive stream is not refilled here: feed it first.
    pub fn next_valid<T: FromToken>(&mut self) -> (r: Option<T>)
        ensures
            valid_step::<T>(old(self)@) == (final(self)@, view_opt(r)),
            old(self)@.buf.len() > 0 ==> final(self)@.buf.len() < old(self)@.buf.len(),
            r is None ==> final(self)@.buf.len() == 0,
            final(self)@.buf.len() > 0 ==> final(self)@.buf[0] != '\n' && final(self)@.buf[0]
                != final(self)@.delim,
    {
        if self.buf.len() == 0 {
            return None;
        }
        loop
            invariant
                self@.buf.len() > 0,
                self@.buf.len() <= old(self)@.buf.len(),
                valid_step::<T>(self@) == valid_step::<T>(old(self)@),
            decreases self@.buf.len(),
        {
            proof {
                lemma_token_step_shrinks(self@);
            }
            let b = self.next_split();
            let tok = self.cut_at(b);
            match T::from_token(tok.as_slice()) {
                Some(v) => {
                    return Some(v);
                },
                None => {},
            }
            if self.buf.len() == 0 {
                return None;
            }
        }
    }

    /// Discards the next `n` tokens (fewer if the buffer runs out). It works on
    /// buffered text only and never waits for input.
    pub fn skip(&mut self, n: usize)
        ensures
            final(self)@ == skip_steps(old(self)@, n as nat),
            n > 0 ==> (final(self)@.buf.len() > 0 ==> final(self)@.buf[0] != '\n'
                && final(self)@.buf[0] != final(self)@.delim),
    {
        let mut i: usize = 0;
        while i < n && self.buf.len() > 0
            invariant
                i <= n,
                skip_steps(self@, (n - i) as nat) == skip_steps(old(self)@, n as nat),
                i > 0 ==> settled(self@),
            decreases n - i,
        {
            let b = self.next_split();
            let _ = self.cut_at(b);
            i = i + 1;
        }
        proof {
            if self@.buf.len() == 0 {
                lemma_skip_exhausted(self@, (n - i) as nat);
            }
        }
    }

    /// Returns the whole buffer as it stands, untrimmed, and empties it.
    pub fn flush(&mut self) -> (r: String)
        ensures
            r@ == old(self)@.buf,
            final(self)@ == with_buf(old(self)@, Seq::empty()),
    {
        let r = string_of(self.buf.as_slice());
        self.buf = Vec::new();
        r
    }
}

impl From<&str> for IStream {
    /// A stream over the fixed text `s`; see [`IStream::from_text`].
    fn from(s: &str) -> (r: IStream)
        ensures
            r@ == (StreamView { buf: s@, interactive: false, delim: ' ', ignore_endl: false }),
    {
        IStream::from_text(s)
    }
}

impl vstd::std_specs::convert::FromSpecImpl<&str> for IStream {
    open spec fn obeys_from_spec() -> bool {
        false
    }

    open spec fn from_spec(v: &str) -> IStream {
        arbitrary()
    }
}

impl From<String> for IStream {
    /// A stream over the fixed text `s`; see [`IStream::from_text`].
    fn from(s: String) -> (r: IStream)
        ensures
            r@ == (StreamView { buf: s@, interactive: false, delim: ' ', ignore_endl: false }),
    {
        IStream::from_text(s.as_str())
    }
}

impl vstd::std_specs::convert::FromSpecImpl<String> for IStream {
    open spec fn obeys_from_spec() -> bool {
        false
    }

    open spec fn from_spec(v: String) -> IStream {
        arbitrary()
    }
}

/// On an empty buffer, discarding tokens changes nothing.
pub proof fn lemma_skip_exhausted(s: StreamView, n: nat)
    requires
        s.buf.len() == 0,
    ensures
        skip_steps(s, n) == s,
    decreases n,
{
    if n > 0 {
        lemma_skip_exhausted(token_step(s).0, (n - 1) as nat);
    }
}

/// Taking tokens never lengthens the buffer.
pub proof fn lemma_skip_no_longer(s: StreamView, n: nat)
    ensures
        skip_steps(s, n).buf.len() <= s.buf.len(),
    decreases n,
{
    if n > 0 {
        lemma_token_step_shrinks(s);
        lemma_skip_no_longer(token_step(s).0, (n - 1) as nat);
    }
}

pub proof fn lemma_valid_step_shrinks<T: FromToken>(s: StreamView)
    ensures
        s.buf.len() > 0 ==> valid_step::<T>(s).0.buf.len() < s.buf.len(),
    decreases s.buf.len(),
{
    if s.buf.len() > 0 {
        lemma_token_step_shrinks(s);
        let s2 = parse_step::<T>(s).0;
        if s2.buf.len() > 0 {
            lemma_valid_step_shrinks::<T>(s2);
        }
    }
}

/// Progress: on a non-empty buffer, every extracting operation (one token,
/// one typed token, one valid typed token, one line, skipping at least one
/// token, flushing) leaves a strictly shorter buffer. So no loop over
/// extractions can spin on the same buffer.
pub proof fn law_extraction_progress<T: FromToken>(s: StreamView, n: nat)
    requires
        s.buf.len() > 0,
        n > 0,
    ensures
        token_step(s).0.buf.len() < s.buf.len(),
        parse_step::<T>(s).0.buf.len() < s.buf.len(),
        valid_step::<T>(s).0.buf.len() < s.buf.len(),
        line_step(s).0.buf.len() < s.buf.len(),
        skip_steps(s, n).buf.len() < s.buf.len(),
        with_buf(s, Seq::empty()).buf.len() < s.buf.len(),
{
    lemma_token_step_shrinks(s);
    lemma_valid_step_shrinks::<T>(s);
    lemma_find_char(s.buf, '\n');
    lemma_cut_shrinks(s, find_char(s.buf, '\n') as int);
    lemma_skip_no_longer(token_step(s).0, (n - 1) as nat);
}

/// Exhaustion: once the buffer is empty, every extracting operation yields
/// nothing and leaves the stream as it was, so every later call yields
/// nothing too. A stream over fixed text is never fed, so once it is used
/// up it stays used up.
pub proof fn law_exhausted<T: FromToken>(s: StreamView, n: nat)
    requires
        s.buf.len() == 0,
    ensures
        token_step(s) == (s, None::<Seq<char>>),
        parse_step::<T>(s) == (s, None::<T::V>),
        valid_step::<T>(s) == (s, None::<T::V>),
        line_step(s) == (s, None::<Seq<char>>),
        skip_steps(s, n) == s,
{
    lemma_skip_exhausted(s, n);
}

/// `t` is `r` with whitespace taken off its two edges, and nothing else.
pub open spec fn is_edge_trim(t: Seq<char>, r: Seq<char>) -> bool {
    exists|i: int, j: int|
        0 <= i <= j <= r.len() && t == #[trigger] r.subrange(i, j) && (forall|k: int|
            0 <= k < i ==> spec_is_whitespace(#[trigger] r[k])) && (forall|k: int|
            j <= k < r.len() ==> spec_is_whitespace(#[trigger] r[k]))
}

proof fn lemma_edge_trim(r: Seq<char>)
    ensures
        is_edge_trim(trim_ws(r), r),
{
    let (i, j) = lemma_trim_ws_bounds(r);
    assert(trim_ws(r) == r.subrange(i, j));
}

/// Delimiter asymmetry. Under a delimiter other than the blank, taking a
/// token removes that delimiter everywhere in the rest of the buffer (which
/// then also loses its leading newlines); under the blank, the rest only
/// loses whitespace at its two edges. Either way the
/// token itself holds no delimiter and is its raw text with whitespace taken
/// off its edges.
pub proof fn law_delimiter_asymmetry(s: StreamView)
    requires
        s.buf.len() > 0,
    ensures
        ({
            let b = boundary(s) as int;
            let rest = rest_after(s.buf, b);
            let after = token_step(s).0;
            let tok = token_step(s).1.unwrap();
            &&& s.delim != ' ' ==> after.buf == trim_newlines(without_char(rest, s.delim))
                && !after.buf.contains(s.delim)
            &&& s.delim == ' ' ==> is_edge_trim(after.buf, rest)
            &&& !tok.contains(s.delim)
            &&& is_edge_trim(tok, s.buf.subrange(0, b))
        }),
{
    let b = boundary(s) as int;
    let rest = rest_after(s.buf, b);
    lemma_find_char(s.buf, s.delim);
    lemma_find_char(s.buf, '\n');
    lemma_without_char_absent(rest, s.delim);
    lemma_trim_ws_no_newline(rest);
    lemma_edge_trim(rest);
    let w = without_char(rest, s.delim);
    let m = lemma_trim_newlines(w);
    assert forall|k: int| 0 <= k < trim_newlines(w).len() implies trim_newlines(w)[k]
        != s.delim by {
        assert(trim_newlines(w)[k] == w[k + m]);
    }
    let head = s.buf.subrange(0, b);
    lemma_edge_trim(head);
    let (i, j) = lemma_trim_ws_bounds(head);
    let tok = trim_ws(head);
    assert forall|k: int| 0 <= k < tok.len() implies tok[k] != s.delim by {
        assert(tok[k] == head[k + i]);
        assert(head[k + i] == s.buf[k + i]);
    }
}

} // verus!
