//! Single-pass tokenizer for the RTF subset the transcripts are written
//! in: group braces, control words with optional numeric parameters and
//! their delimiters, control symbols, and plain text runs whose `\'XX`
//! escape sequences are kept as opaque text.

use vstd::prelude::*;

use crate::timestamp::{digit_run_len, is_digit};

verus! {

/// The classification of one token.
#[derive(Clone, Copy, Debug, PartialEq, Eq, Structural)]
pub enum TokenKind {
    /// Unformatted text, including escape sequences like `\'fc`.
    Text,
    /// Start of an RTF group: a left curly brace.
    GroupStart,
    /// End of an RTF group: a right curly brace.
    GroupEnd,
    /// A backslash followed by a single non-alphabetic character, such as
    /// the non-breaking space `\~`.
    ControlSym,
    /// A control word: a backslash followed by a lowercase-letter run,
    /// such as `\b` to toggle bold text.
    ControlWord,
    /// The optional integer parameter directly after a control word.
    Parameter,
    /// The byte that terminates a control symbol, control word or
    /// parameter without being part of the text content.
    Delimiter,
}

impl TokenKind {
    /// Whether this is the text kind.
    pub fn is_text(&self) -> (r: bool)
        ensures
            r == (*self is Text),
    {
        match self {
            TokenKind::Text => true,
            _ => false,
        }
    }
}

/// A start and end offset into the tokenized line.
#[derive(Clone, Copy, Debug, PartialEq, Eq, Structural)]
pub struct Extent {
    pub start: usize,
    pub end: usize,
}

impl Extent {
    /// An extent over the given offsets.
    pub fn new(start: usize, end: usize) -> (r: Extent)
        ensures
            r.start == start,
            r.end == end,
    {
        Extent { start, end }
    }

    /// The bytes of the source this extent covers.
    pub fn as_str<'a>(&self, source: &'a [u8]) -> (r: &'a [u8])
        requires
            self.start <= self.end <= source@.len(),
        ensures
            r@ == source@.subrange(self.start as int, self.end as int),
    {
        vstd::slice::slice_subrange(source, self.start, self.end)
    }

    /// Inclusive offset of the first byte.
    pub fn start(&self) -> (r: usize)
        ensures
            r == self.start,
    {
        self.start
    }

    /// Exclusive offset of the last byte.
    pub fn end(&self) -> (r: usize)
        ensures
            r == self.end,
    {
        self.end
    }

    /// Byte length of the extent.
    pub fn len(&self) -> (r: usize)
        requires
            self.start <= self.end,
        ensures
            r == self.end - self.start,
    {
        self.end - self.start
    }
}

/// One classified, non-overlapping slice of a tokenized line.
#[derive(Clone, Copy, Debug)]
pub struct Token {
    pub source: Extent,
    pub kind: TokenKind,
}

/// Whether a byte is a lowercase ASCII letter.
pub open spec fn is_lower(b: u8) -> bool {
    97 <= b <= 122
}

/// Whether a byte ends a plain-text stretch: a backslash or a group
/// brace.
pub open spec fn is_stop(b: u8) -> bool {
    b == 92 || b == 123 || b == 125
}

/// End of the plain-text stretch scanned from `from`: the next backslash
/// or brace, except that a stop byte directly followed by a `'` belongs
/// to an escape sequence and the stretch continues after the pair.
pub open spec fn spec_plain_end(s: Seq<u8>, from: int) -> int
    decreases s.len() - from,
{
    if from < 0 || from >= s.len() {
        s.len() as int
    } else if !is_stop(s[from]) {
        spec_plain_end(s, from + 1)
    } else if from + 1 < s.len() && s[from + 1] == 39 {
        spec_plain_end(s, from + 2)
    } else {
        from
    }
}

/// The scanned stretch stays within the buffer.
proof fn lemma_plain_end_bounds(s: Seq<u8>, from: int)
    requires
        0 <= from <= s.len(),
    ensures
        from <= spec_plain_end(s, from) <= s.len(),
    decreases s.len() - from,
{
    if from < s.len() {
        if !is_stop(s[from]) {
            lemma_plain_end_bounds(s, from + 1);
        } else if from + 1 < s.len() && s[from + 1] == 39 {
            lemma_plain_end_bounds(s, from + 2);
        }
    }
}

/// End of the lowercase-letter run scanned from `i`.
pub open spec fn spec_lower_run_end(s: Seq<u8>, i: int) -> int
    decreases s.len() - i,
{
    if i < 0 || i >= s.len() {
        s.len() as int
    } else if !is_lower(s[i]) {
        i
    } else {
        spec_lower_run_end(s, i + 1)
    }
}

/// The scanned run stays within the buffer.
proof fn lemma_lower_run_bounds(s: Seq<u8>, i: int)
    requires
        0 <= i <= s.len(),
    ensures
        i <= spec_lower_run_end(s, i) <= s.len(),
    decreases s.len() - i,
{
    if i < s.len() && is_lower(s[i]) {
        lemma_lower_run_bounds(s, i + 1);
    }
}

/// End of the parameter token whose first byte (a digit or hyphen) sits
/// at `from`: the first byte after the digit run that follows.
pub open spec fn spec_param_end(s: Seq<u8>, from: int) -> int {
    from + 1 + digit_run_len(s, from + 1)
}

/// The kind and exclusive end offset of the token at `from`, or nothing
/// at the end of the scanned range. `from_back` bounds where a token may
/// start; `last` is the kind of the token produced directly before,
/// which decides whether a digit run is a parameter and whether a
/// separator byte is a delimiter.
pub open spec fn spec_token(s: Seq<u8>, from: int, from_back: int, last: Option<TokenKind>) -> Option<
    (TokenKind, int),
> {
    if from < 0 || from >= from_back || from >= s.len() {
        None
    } else {
        let b = s[from];
        if last == Some(TokenKind::ControlWord) && (is_digit(b) || b == 45) {
            Some((TokenKind::Parameter, spec_param_end(s, from)))
        } else if b == 92 {
            if from + 1 >= s.len() {
                Some((TokenKind::Text, from + 1))
            } else if s[from + 1] == 39 {
                Some((TokenKind::Text, spec_plain_end(s, from + 2)))
            } else if is_lower(s[from + 1]) {
                Some((TokenKind::ControlWord, spec_lower_run_end(s, from + 1)))
            } else {
                Some((TokenKind::ControlSym, from + 2))
            }
        } else if b == 123 {
            Some((TokenKind::GroupStart, from + 1))
        } else if b == 125 {
            Some((TokenKind::GroupEnd, from + 1))
        } else if last == Some(TokenKind::ControlSym) || last == Some(TokenKind::ControlWord)
            || last == Some(TokenKind::Parameter) {
            Some((TokenKind::Delimiter, from + 1))
        } else {
            Some((TokenKind::Text, spec_plain_end(s, from + 1)))
        }
    }
}

/// A token covers at least one byte and ends within the buffer.
pub proof fn lemma_token_bounds(s: Seq<u8>, from: int, from_back: int, last: Option<TokenKind>)
    requires
        spec_token(s, from, from_back, last) is Some,
    ensures
        from < spec_token(s, from, from_back, last)->Some_0.1 <= s.len(),
{
    let b = s[from];
    if last == Some(TokenKind::ControlWord) && (is_digit(b) || b == 45) {
        crate::timestamp::lemma_digit_run_in_bounds(s, from + 1);
    } else if b == 92 {
        if from + 1 >= s.len() {
        } else if s[from + 1] == 39 {
            lemma_plain_end_bounds(s, from + 2);
        } else if is_lower(s[from + 1]) {
            lemma_lower_run_bounds(s, from + 1);
        }
    } else if b == 123 || b == 125 {
    } else if last == Some(TokenKind::ControlSym) || last == Some(TokenKind::ControlWord) || last
        == Some(TokenKind::Parameter) {
    } else {
        lemma_plain_end_bounds(s, from + 1);
    }
}

impl Token {
    /// The extent of this token in the tokenized line.
    pub fn source(&self) -> (r: Extent)
        ensures
            r == self.source,
    {
        self.source
    }

    /// The kind of this token.
    pub fn kind(&self) -> (r: TokenKind)
        ensures
            r == self.kind,
    {
        self.kind
    }

    /// Byte length of this token.
    pub fn len(&self) -> (r: usize)
        requires
            self.source.start <= self.source.end,
        ensures
            r == self.source.end - self.source.start,
    {
        self.source.len()
    }

    /// The bytes of the line this token covers.
    pub fn as_str<'a>(&self, source: &'a [u8]) -> (r: &'a [u8])
        requires
            self.source.start <= self.source.end <= source@.len(),
        ensures
            r@ == source@.subrange(self.source.start as int, self.source.end as int),
    {
        self.source.as_str(source)
    }

    /// Scans the token starting at `from`. A token may start only before
    /// `from_back`; `last_consumed` is the kind of the token scanned
    /// directly before, if any.
    pub fn parse(source: &[u8], from: usize, from_back: usize, last_consumed: Option<TokenKind>)
        -> (r: Option<Token>)
        requires
            from <= from_back,
        ensures
            match r {
                Some(tok) => {
                    &&& spec_token(source@, from as int, from_back as int, last_consumed) == Some(
                        (tok.kind, tok.source.end as int),
                    )
                    &&& tok.source.start == from
                    &&& from < tok.source.end <= source@.len()
                },
                None => spec_token(source@, from as int, from_back as int, last_consumed) is None,
            },
    {
        if from >= from_back || from >= source.len() {
            return None;
        }
        let b = source[from];
        let is_param_lead: bool = (48 <= b && b <= 57) || b == 45;
        let last_was_word: bool = match last_consumed {
            Some(TokenKind::ControlWord) => true,
            _ => false,
        };
        proof {
            lemma_token_bounds(source@, from as int, from_back as int, last_consumed);
        }
        if last_was_word && is_param_lead {
            let end = digit_end(source, from + 1);
            return Some(
                Token { source: Extent { start: from, end }, kind: TokenKind::Parameter },
            );
        }
        if b == 92 {
            if from + 1 >= source.len() {
                return Some(
                    Token { source: Extent { start: from, end: from + 1 }, kind: TokenKind::Text },
                );
            }
            let b2 = source[from + 1];
            if b2 == 39 {
                let end = plain_end(source, from + 2);
                return Some(
                    Token { source: Extent { start: from, end }, kind: TokenKind::Text },
                );
            }
            if 97 <= b2 && b2 <= 122 {
                let end = lower_run_end(source, from + 1);
                return Some(
                    Token { source: Extent { start: from, end }, kind: TokenKind::ControlWord },
                );
            }
            return Some(
                Token {
                    source: Extent { start: from, end: from + 2 },
                    kind: TokenKind::ControlSym,
                },
            );
        }
        if b == 123 {
            return Some(
                Token {
                    source: Extent { start: from, end: from + 1 },
                    kind: TokenKind::GroupStart,
                },
            );
        }
        if b == 125 {
            return Some(
                Token { source: Extent { start: from, end: from + 1 }, kind: TokenKind::GroupEnd },
            );
        }
        let last_terminates: bool = match last_consumed {
            Some(TokenKind::ControlSym) => true,
            Some(TokenKind::ControlWord) => true,
            Some(TokenKind::Parameter) => true,
            _ => false,
        };
        if last_terminates {
            return Some(
                Token { source: Extent { start: from, end: from + 1 }, kind: TokenKind::Delimiter },
            );
        }
        let end = plain_end(source, from + 1);
        Some(Token { source: Extent { start: from, end }, kind: TokenKind::Text })
    }
}

/// The sequence of tokens scanned from `pos` to the end of the line,
/// with `last` as the kind of the token scanned directly before.
pub open spec fn spec_tokens_from(s: Seq<u8>, pos: int, last: Option<TokenKind>) -> Seq<Token>
    decreases s.len() - pos
    via spec_tokens_from_decreases
{
    match spec_token(s, pos, s.len() as int, last) {
        None => Seq::empty(),
        Some((k, e)) => seq![
            Token { source: Extent { start: pos as usize, end: e as usize }, kind: k },
        ] + spec_tokens_from(s, e, Some(k)),
    }
}

#[via_fn]
proof fn spec_tokens_from_decreases(s: Seq<u8>, pos: int, last: Option<TokenKind>) {
    if spec_token(s, pos, s.len() as int, last) is Some {
        lemma_token_bounds(s, pos, s.len() as int, last);
    }
}

/// The sequence of tokens of a whole line.
pub open spec fn spec_tokens(s: Seq<u8>) -> Seq<Token> {
    spec_tokens_from(s, 0, None)
}

/// The text tokens among the tokens scanned from `pos`, in order.
pub open spec fn spec_text_tokens_from(s: Seq<u8>, pos: int, last: Option<TokenKind>) -> Seq<Token>
    decreases s.len() - pos
    via spec_text_tokens_from_decreases
{
    match spec_token(s, pos, s.len() as int, last) {
        None => Seq::empty(),
        Some((k, e)) => {
            let rest = spec_text_tokens_from(s, e, Some(k));
            if k is Text {
                seq![Token { source: Extent { start: pos as usize, end: e as usize }, kind: k }]
                    + rest
            } else {
                rest
            }
        },
    }
}

#[via_fn]
proof fn spec_text_tokens_from_decreases(s: Seq<u8>, pos: int, last: Option<TokenKind>) {
    if spec_token(s, pos, s.len() as int, last) is Some {
        lemma_token_bounds(s, pos, s.len() as int, last);
    }
}

/// The text tokens of a whole line, in order.
pub open spec fn spec_text_tokens(s: Seq<u8>) -> Seq<Token> {
    spec_text_tokens_from(s, 0, None)
}

/// Every scanned token lies within the line, after the scan position,
/// and the tokens do not overlap and come in order.
pub proof fn lemma_tokens_from_props(s: Seq<u8>, pos: int, last: Option<TokenKind>)
    requires
        0 <= pos,
        s.len() <= usize::MAX,
    ensures
        forall|k: int|
            0 <= k < spec_tokens_from(s, pos, last).len() ==> pos <= (
            #[trigger] spec_tokens_from(s, pos, last)[k]).source.start
                < spec_tokens_from(s, pos, last)[k].source.end <= s.len(),
        forall|k1: int, k2: int|
            0 <= k1 < k2 < spec_tokens_from(s, pos, last).len() ==> spec_tokens_from(
                s,
                pos,
                last,
            )[k1].source.end <= spec_tokens_from(s, pos, last)[k2].source.start,
    decreases s.len() - pos,
{
    if spec_token(s, pos, s.len() as int, last) is Some {
        let (k, e) = spec_token(s, pos, s.len() as int, last)->Some_0;
        lemma_token_bounds(s, pos, s.len() as int, last);
        lemma_tokens_from_props(s, e, Some(k));
    }
}

/// The text tokens have the same ordering properties as the full token
/// sequence, and every one of them is a text token.
pub proof fn lemma_text_tokens_from_props(s: Seq<u8>, pos: int, last: Option<TokenKind>)
    requires
        0 <= pos,
        s.len() <= usize::MAX,
    ensures
        forall|k: int|
            0 <= k < spec_text_tokens_from(s, pos, last).len() ==> pos <= (
            #[trigger] spec_text_tokens_from(s, pos, last)[k]).source.start
                < spec_text_tokens_from(s, pos, last)[k].source.end <= s.len(),
        forall|k1: int, k2: int|
            0 <= k1 < k2 < spec_text_tokens_from(s, pos, last).len() ==> spec_text_tokens_from(
                s,
                pos,
                last,
            )[k1].source.end <= spec_text_tokens_from(s, pos, last)[k2].source.start,
        forall|k: int|
            0 <= k < spec_text_tokens_from(s, pos, last).len() ==> (
            #[trigger] spec_text_tokens_from(s, pos, last)[k]).kind is Text,
    decreases s.len() - pos,
{
    if spec_token(s, pos, s.len() as int, last) is Some {
        let (k, e) = spec_token(s, pos, s.len() as int, last)->Some_0;
        lemma_token_bounds(s, pos, s.len() as int, last);
        lemma_text_tokens_from_props(s, e, Some(k));
    }
}

/// Scans the whole line into its token sequence.
pub(crate) fn tokens_of(line: &[u8]) -> (r: Vec<Token>)
    ensures
        r@ == spec_tokens(line@),
{
    let ghost s = line@;
    let mut r: Vec<Token> = Vec::new();
    let mut pos: usize = 0;
    let mut last: Option<TokenKind> = None;
    loop
        invariant
            s == line@,
            0 <= pos <= s.len(),
            r@ + spec_tokens_from(s, pos as int, last) == spec_tokens(s),
        decreases s.len() - pos,
    {
        let ghost r0 = r@;
        match Token::parse(line, pos, line.len(), last) {
            None => {
                proof {
                    assert(r@ =~= r@ + spec_tokens_from(s, pos as int, last));
                }
                return r;
            },
            Some(tok) => {
                r.push(tok);
                proof {
                    assert(r@ + spec_tokens_from(s, tok.source.end as int, Some(tok.kind)) =~= r0
                        + spec_tokens_from(s, pos as int, last));
                }
                pos = tok.source.end;
                last = Some(tok.kind);
            },
        }
    }
}

/// Scans the whole line and keeps its text tokens.
pub(crate) fn text_tokens_of(line: &[u8]) -> (r: Vec<Token>)
    ensures
        r@ == spec_text_tokens(line@),
{
    let ghost s = line@;
    let mut r: Vec<Token> = Vec::new();
    let mut pos: usize = 0;
    let mut last: Option<TokenKind> = None;
    loop
        invariant
            s == line@,
            0 <= pos <= s.len(),
            r@ + spec_text_tokens_from(s, pos as int, last) == spec_text_tokens(s),
        decreases s.len() - pos,
    {
        let ghost r0 = r@;
        match Token::parse(line, pos, line.len(), last) {
            None => {
                proof {
                    assert(r@ =~= r@ + spec_text_tokens_from(s, pos as int, last));
                }
                return r;
            },
            Some(tok) => {
                let is_text = tok.kind().is_text();
                if is_text {
                    r.push(tok);
                }
                proof {
                    assert(r@ + spec_text_tokens_from(s, tok.source.end as int, Some(tok.kind))
                        =~= r0 + spec_text_tokens_from(s, pos as int, last));
                }
                pos = tok.source.end;
                last = Some(tok.kind);
            },
        }
    }
}

/// A forward cursor over the tokens of a line.
pub struct Rtf {
    pub source: Vec<u8>,
    pub front_last_consumed: Option<TokenKind>,
    pub front_pos: usize,
    pub back_pos: usize,
}

impl Rtf {
    /// A cursor at the start of the given line.
    pub fn new(source: &[u8]) -> (r: Rtf)
        ensures
            r.source@ == source@,
            r.front_pos == 0,
            r.back_pos == source@.len(),
            r.front_last_consumed is None,
    {
        let back_pos = source.len();
        Rtf {
            source: vstd::slice::slice_to_vec(source),
            front_pos: 0,
            back_pos,
            front_last_consumed: None,
        }
    }

    /// Scans the next token and advances past it.
    pub fn next(&mut self) -> (r: Option<Token>)
        requires
            old(self).front_pos <= old(self).back_pos,
        ensures
            final(self).source == old(self).source,
            final(self).back_pos == old(self).back_pos,
            match r {
                Some(tok) => {
                    &&& spec_token(
                        old(self).source@,
                        old(self).front_pos as int,
                        old(self).back_pos as int,
                        old(self).front_last_consumed,
                    ) == Some((tok.kind, tok.source.end as int))
                    &&& tok.source.start == old(self).front_pos
                    &&& old(self).front_pos < tok.source.end <= old(self).source@.len()
                    &&& final(self).front_pos == tok.source.end
                    &&& final(self).front_last_consumed == Some(tok.kind)
                },
                None => {
                    &&& spec_token(
                        old(self).source@,
                        old(self).front_pos as int,
                        old(self).back_pos as int,
                        old(self).front_last_consumed,
                    ) is None
                    &&& final(self).front_pos == old(self).front_pos
                    &&& final(self).front_last_consumed == old(self).front_last_consumed
                },
            },
    {
        match Token::parse(
            self.source.as_slice(),
            self.front_pos,
            self.back_pos,
            self.front_last_consumed,
        ) {
            Some(tok) => {
                self.front_pos = tok.source.end;
                self.front_last_consumed = Some(tok.kind);
                Some(tok)
            },
            None => None,
        }
    }
}

/// Scans to the end of the plain-text stretch starting at `from`.
fn plain_end(s: &[u8], from: usize) -> (r: usize)
    requires
        from <= s@.len(),
    ensures
        r == spec_plain_end(s@, from as int),
        from <= r <= s@.len(),
{
    let mut i: usize = from;
    loop
        invariant
            from <= i <= s@.len(),
            spec_plain_end(s@, from as int) == spec_plain_end(s@, i as int),
        decreases s@.len() - i,
    {
        if i == s.len() {
            return i;
        }
        let b = s[i];
        if b != 92 && b != 123 && b != 125 {
            i = i + 1;
        } else if i + 1 < s.len() && s[i + 1] == 39 {
            i = i + 2;
        } else {
            proof {
                lemma_plain_end_bounds(s@, from as int);
            }
            return i;
        }
    }
}

/// Scans to the end of the lowercase-letter run starting at `i`.
fn lower_run_end(s: &[u8], from: usize) -> (r: usize)
    requires
        from <= s@.len(),
    ensures
        r == spec_lower_run_end(s@, from as int),
        from <= r <= s@.len(),
{
    let mut i: usize = from;
    while i < s.len() && 97 <= s[i] && s[i] <= 122
        invariant
            from <= i <= s@.len(),
            spec_lower_run_end(s@, from as int) == spec_lower_run_end(s@, i as int),
        decreases s@.len() - i,
    {
        i = i + 1;
    }
    i
}

/// Scans to the end of the parameter whose lead byte sits directly
/// before `from`.
fn digit_end(s: &[u8], from: usize) -> (r: usize)
    requires
        from <= s@.len(),
    ensures
        r == from + digit_run_len(s@, from as int),
        from <= r <= s@.len(),
{
    let mut i: usize = from;
    while i < s.len() && 48 <= s[i] && s[i] <= 57
        invariant
            from <= i <= s@.len(),
            digit_run_len(s@, from as int) == i - from + digit_run_len(s@, i as int),
        decreases s@.len() - i,
    {
        i = i + 1;
    }
    i
}

} // verus!
