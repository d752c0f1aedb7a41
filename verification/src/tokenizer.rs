//! The tokenizer: it splits a source text into declarations' names, names,
//! text literals, numbers and arrows, each with the bytes it came from.

use crate::error::{Error, ErrorView};
use crate::span::Span;
use crate::text::{all_digits, decimal_value, is_digit, lemma_decimal_value_grows};
use vstd::prelude::*;
use vstd::string::*;

verus! {

/// What a [`Token`] stands for in contracts.
pub enum TokenView {
    Decl(Seq<char>, Span),
    Name(Seq<char>, Span),
    String(Seq<char>, Span),
    Num(u64, Span),
    Arrow(Span),
}

/// A lexical unit of the source text, with the bytes it came from.
#[derive(Debug)]
pub enum Token {
    /// The name that a declaration introduces (written with a leading `\`).
    Decl(String, Span),
    /// A reference to a parameter or a function.
    Name(String, Span),
    /// A text literal, with its escapes resolved.
    String(String, Span),
    /// An unsigned decimal number.
    Num(u64, Span),
    /// The marker `->` between a declaration's head and its body.
    Arrow(Span),
}

/// The kind of a [`Token`], without what it holds.
#[derive(Debug, Clone, Copy, PartialEq, Eq, Structural)]
pub enum TokenKind {
    Decl,
    Name,
    String,
    Num,
    Arrow,
}

impl View for Token {
    type V = TokenView;

    open spec fn view(&self) -> TokenView {
        match self {
            Token::Decl(s, span) => TokenView::Decl(s@, *span),
            Token::Name(s, span) => TokenView::Name(s@, *span),
            Token::String(s, span) => TokenView::String(s@, *span),
            Token::Num(n, span) => TokenView::Num(*n, *span),
            Token::Arrow(span) => TokenView::Arrow(*span),
        }
    }
}

impl TokenView {
    /// The bytes of the source that the token came from.
    pub open spec fn span(self) -> Span {
        match self {
            TokenView::Decl(_, s) => s,
            TokenView::Name(_, s) => s,
            TokenView::String(_, s) => s,
            TokenView::Num(_, s) => s,
            TokenView::Arrow(s) => s,
        }
    }

    /// The kind of the token.
    pub open spec fn kind(self) -> TokenKind {
        match self {
            TokenView::Decl(_, _) => TokenKind::Decl,
            TokenView::Name(_, _) => TokenKind::Name,
            TokenView::String(_, _) => TokenKind::String,
            TokenView::Num(_, _) => TokenKind::Num,
            TokenView::Arrow(_) => TokenKind::Arrow,
        }
    }
}

impl Clone for Token {
    fn clone(&self) -> (res: Self)
        ensures
            res@ == self@,
    {
        match self {
            Token::Decl(s, span) => Token::Decl(s.clone(), *span),
            Token::Name(s, span) => Token::Name(s.clone(), *span),
            Token::String(s, span) => Token::String(s.clone(), *span),
            Token::Num(n, span) => Token::Num(*n, *span),
            Token::Arrow(span) => Token::Arrow(*span),
        }
    }
}

impl Token {
    /// The bytes of the source that the token came from.
    pub fn span(&self) -> (res: Span)
        ensures
            res == self@.span(),
    {
        match self {
            Token::Decl(_, s) => *s,
            Token::Name(_, s) => *s,
            Token::String(_, s) => *s,
            Token::Num(_, s) => *s,
            Token::Arrow(s) => *s,
        }
    }

    /// The kind of the token.
    pub fn kind(&self) -> (res: TokenKind)
        ensures
            res == self@.kind(),
    {
        match self {
            Token::Decl(_, _) => TokenKind::Decl,
            Token::Name(_, _) => TokenKind::Name,
            Token::String(_, _) => TokenKind::String,
            Token::Num(_, _) => TokenKind::Num,
            Token::Arrow(_) => TokenKind::Arrow,
        }
    }
}

impl TokenKind {
    /// The word by which messages call a kind of token.
    pub open spec fn name(self) -> Seq<char> {
        match self {
            TokenKind::Decl => "declaration"@,
            TokenKind::Name => "name"@,
            TokenKind::String => "string"@,
            TokenKind::Num => "num"@,
            TokenKind::Arrow => "<arrow>"@,
        }
    }

    /// The word by which messages call this kind of token.
    pub fn as_str(&self) -> (res: &'static str)
        ensures
            res@ == self.name(),
    {
        match self {
            TokenKind::Decl => "declaration",
            TokenKind::Name => "name",
            TokenKind::String => "string",
            TokenKind::Num => "num",
            TokenKind::Arrow => "<arrow>",
        }
    }

    /// The word by which messages call this kind of token, as an owned string.
    pub fn to_string(&self) -> (res: String)
        ensures
            res@ == self.name(),
    {
        self.as_str().to_string()
    }
}

impl From<&Token> for TokenKind {
    fn from(token: &Token) -> (res: TokenKind) {
        token.kind()
    }
}

impl vstd::std_specs::convert::FromSpecImpl<&Token> for TokenKind {
    open spec fn obeys_from_spec() -> bool {
        true
    }

    open spec fn from_spec(token: &Token) -> TokenKind {
        token@.kind()
    }
}

/// The views of a sequence of tokens, one by one.
pub open spec fn tokens_view(tokens: Seq<Token>) -> Seq<TokenView> {
    tokens.map_values(|t: Token| t@)
}

/// Whether `c` has the Unicode property `White_Space`.
pub open spec fn is_whitespace(c: char) -> bool {
    let u = c as u32;
    ||| 0x09 <= u <= 0x0D
    ||| u == 0x20
    ||| u == 0x85
    ||| u == 0xA0
    ||| u == 0x1680
    ||| 0x2000 <= u <= 0x200A
    ||| u == 0x2028
    ||| u == 0x2029
    ||| u == 0x202F
    ||| u == 0x205F
    ||| u == 0x3000
}

/// Whether `c` is one of the four characters that separate tokens without
/// starting one: space, tab, line feed, carriage return.
pub open spec fn is_blank(c: char) -> bool {
    c == ' ' || c == '\t' || c == '\n' || c == '\r'
}

/// The number of bytes that `c` takes in UTF-8.
pub open spec fn utf8_width(c: char) -> nat {
    let u = c as u32;
    if u < 0x80 {
        1
    } else if u < 0x800 {
        2
    } else if u < 0x10000 {
        3
    } else {
        4
    }
}

/// The number of bytes that `s` takes in UTF-8.
pub open spec fn byte_len(s: Seq<char>) -> nat
    decreases s.len(),
{
    if s.len() == 0 {
        0
    } else {
        byte_len(s.drop_last()) + utf8_width(s.last())
    }
}

/// The byte offset at which the character of index `i` starts.
pub open spec fn offset(src: Seq<char>, i: int) -> nat {
    byte_len(src.take(i))
}

/// The bytes between the characters of index `i` and `j`.
pub open spec fn span_of(src: Seq<char>, i: int, j: int) -> Span {
    Span(offset(src, i) as usize, offset(src, j) as usize)
}

/// The index of the first whitespace character at or after `i`, or the length
/// of `src` where there is none.
pub open spec fn word_end(src: Seq<char>, i: int) -> int
    decreases src.len() - i,
{
    if i < 0 || i >= src.len() || is_whitespace(src[i]) {
        i
    } else {
        word_end(src, i + 1)
    }
}

/// The index of the first line feed at or after `i`, or the length of `src`
/// where there is none.
pub open spec fn line_end(src: Seq<char>, i: int) -> int
    decreases src.len() - i,
{
    if i < 0 || i >= src.len() || src[i] == '\n' {
        i
    } else {
        line_end(src, i + 1)
    }
}

/// The character that an escape sequence with the letter `c` stands for.
pub open spec fn unescape(c: char) -> Option<char> {
    if c == 'n' {
        Some('\n')
    } else if c == 't' {
        Some('\t')
    } else if c == '"' {
        Some('"')
    } else if c == '\\' {
        Some('\\')
    } else {
        None
    }
}

/// How the scan of a text literal ends.
pub enum Literal {
    /// The closing quote was found: the text, and the index after the quote.
    Closed(Seq<char>, int),
    /// The source ended before a closing quote: the text up to there.
    Open(Seq<char>),
    /// A backslash is followed by a character that it cannot escape.
    BadEscape,
    /// The source ends right after a backslash.
    DanglingEscape,
}

impl Literal {
    /// The same outcome with `c` put before the text.
    pub open spec fn after(self, c: char) -> Literal {
        match self {
            Literal::Closed(s, next) => Literal::Closed(seq![c] + s, next),
            Literal::Open(s) => Literal::Open(seq![c] + s),
            other => other,
        }
    }

    /// The same outcome with `prefix` put before the text.
    pub open spec fn after_all(self, prefix: Seq<char>) -> Literal {
        match self {
            Literal::Closed(s, next) => Literal::Closed(prefix + s, next),
            Literal::Open(s) => Literal::Open(prefix + s),
            other => other,
        }
    }
}

/// Scans the inside of a text literal from index `j`, which is after the
/// opening quote.
pub open spec fn scan_literal(src: Seq<char>, j: int) -> Literal
    decreases src.len() - j,
{
    if j < 0 || j >= src.len() {
        Literal::Open(Seq::empty())
    } else if src[j] == '"' {
        Literal::Closed(Seq::empty(), j + 1)
    } else if src[j] == '\\' {
        if j + 1 >= src.len() {
            Literal::DanglingEscape
        } else {
            match unescape(src[j + 1]) {
                Some(c) => scan_literal(src, j + 2).after(c),
                None => Literal::BadEscape,
            }
        }
    } else {
        scan_literal(src, j + 1).after(src[j])
    }
}

/// The token that starts at index `i`, and the index at which to go on; or
/// the error that the characters there give. `src[i]` is neither blank nor
/// the start of a comment.
pub open spec fn token_at(src: Seq<char>, i: int) -> Result<(TokenView, int), ErrorView> {
    let c = src[i];
    if is_digit(c) {
        let end = word_end(src, i + 1);
        let digits = src.subrange(i, end);
        if all_digits(digits) && decimal_value(digits) <= u64::MAX {
            Ok((TokenView::Num(decimal_value(digits) as u64, span_of(src, i, end)), end))
        } else {
            Err(ErrorView::Spanned("invalid number literal"@, span_of(src, i, end)))
        }
    } else if c == '-' {
        if i + 1 < src.len() && src[i + 1] == '>' {
            Ok((TokenView::Arrow(span_of(src, i, i + 2)), i + 2))
        } else if i + 1 < src.len() && is_blank(src[i + 1]) {
            Ok((TokenView::Name("-"@, span_of(src, i, i + 1)), i + 2))
        } else {
            Err(
                ErrorView::Spanned(
                    "expected '>' or whitespace after '-'"@,
                    span_of(src, i, i + 1),
                ),
            )
        }
    } else if c == '"' {
        match scan_literal(src, i + 1) {
            Literal::Closed(s, next) => Ok((TokenView::String(s, span_of(src, i, next)), next)),
            Literal::Open(s) => Ok(
                (TokenView::String(s, span_of(src, i, src.len() as int)), src.len() as int),
            ),
            Literal::BadEscape => Err(
                ErrorView::Spanned(
                    "invalid escape sequence"@,
                    Span(offset(src, i) as usize, (offset(src, i) + 2) as usize),
                ),
            ),
            Literal::DanglingEscape => Err(
                ErrorView::Spanned(
                    "unfinished escape sequence"@,
                    Span(offset(src, i) as usize, (offset(src, i) + 1) as usize),
                ),
            ),
        }
    } else {
        let end = word_end(src, i + 1);
        if c == '\\' {
            Ok((TokenView::Decl(src.subrange(i + 1, end), span_of(src, i + 1, end)), end))
        } else {
            Ok((TokenView::Name(src.subrange(i, end), span_of(src, i, end)), end))
        }
    }
}

/// The tokens of `src` from index `i` on, or the first error.
pub open spec fn lex_from(src: Seq<char>, i: int) -> Result<Seq<TokenView>, ErrorView>
    decreases src.len() - i,
    via lex_from_advances
{
    if i < 0 || i >= src.len() {
        Ok(Seq::empty())
    } else if is_blank(src[i]) {
        lex_from(src, i + 1)
    } else if src[i] == '#' {
        lex_from(src, line_end(src, i + 1))
    } else {
        match token_at(src, i) {
            Err(e) => Err(e),
            Ok((token, next)) => match lex_from(src, next) {
                Err(e) => Err(e),
                Ok(rest) => Ok(seq![token] + rest),
            },
        }
    }
}

#[via_fn]
proof fn lex_from_advances(src: Seq<char>, i: int) {
    if 0 <= i < src.len() {
        lemma_line_end_bounds(src, i + 1);
        lemma_token_at_advances(src, i);
    }
}

/// `word_end` stays between its start and the end of the source.
pub proof fn lemma_word_end_bounds(src: Seq<char>, i: int)
    requires
        0 <= i <= src.len(),
    ensures
        i <= word_end(src, i) <= src.len(),
        forall|k: int| i <= k < word_end(src, i) ==> !is_whitespace(#[trigger] src[k]),
        word_end(src, i) < src.len() ==> is_whitespace(src[word_end(src, i)]),
    decreases src.len() - i,
{
    if i < src.len() && !is_whitespace(src[i]) {
        lemma_word_end_bounds(src, i + 1);
    }
}

/// `line_end` stays between its start and the end of the source.
pub proof fn lemma_line_end_bounds(src: Seq<char>, i: int)
    requires
        0 <= i <= src.len(),
    ensures
        i <= line_end(src, i) <= src.len(),
    decreases src.len() - i,
{
    if i < src.len() && src[i] != '\n' {
        lemma_line_end_bounds(src, i + 1);
    }
}

/// A closed literal ends after where its scan began, within the source.
pub proof fn lemma_scan_literal_bounds(src: Seq<char>, j: int)
    requires
        0 <= j <= src.len(),
    ensures
        scan_literal(src, j) matches Literal::Closed(_, next) ==> j < next <= src.len(),
    decreases src.len() - j,
{
    if j < src.len() && src[j] != '"' {
        if src[j] == '\\' {
            if j + 1 < src.len() && unescape(src[j + 1]) is Some {
                lemma_scan_literal_bounds(src, j + 2);
            }
        } else {
            lemma_scan_literal_bounds(src, j + 1);
        }
    }
}

/// A token takes at least one character and ends within the source.
pub proof fn lemma_token_at_advances(src: Seq<char>, i: int)
    requires
        0 <= i < src.len(),
    ensures
        token_at(src, i) matches Ok((_, next)) ==> i < next <= src.len(),
{
    lemma_word_end_bounds(src, i + 1);
    lemma_scan_literal_bounds(src, i + 1);
}

/// Whether `span` does not end before it starts and lies within a text of
/// `limit` bytes.
pub open spec fn within(span: Span, limit: nat) -> bool {
    span.0 <= span.1 <= limit
}

/// Whether the place that an error points at, if it points at one, lies
/// within a text of `limit` bytes.
pub open spec fn points_within(e: ErrorView, limit: nat) -> bool {
    match e {
        ErrorView::General(_) => true,
        ErrorView::Spanned(_, span) => within(span, limit),
    }
}

/// The span of a token and the span of a token's error lie within the
/// source.
pub proof fn lemma_token_span(src: Seq<char>, i: int)
    requires
        0 <= i < src.len(),
        byte_len(src) <= usize::MAX,
    ensures
        match token_at(src, i) {
            Ok((token, _)) => within(token.span(), byte_len(src)),
            Err(e) => e is Spanned && points_within(e, byte_len(src)),
        },
{
    let end = word_end(src, i + 1);
    lemma_word_end_bounds(src, i + 1);
    lemma_scan_literal_bounds(src, i + 1);
    lemma_offset_grows(src, i, end);
    lemma_offset_grows(src, i + 1, end);
    lemma_offset_grows(src, i, i + 1);
    lemma_offset_grows(src, i, src.len() as int);
    if i + 2 <= src.len() {
        lemma_offset_grows(src, i, i + 2);
    }
    match scan_literal(src, i + 1) {
        Literal::Closed(_, next) => {
            lemma_offset_grows(src, i, next);
        },
        Literal::BadEscape => {
            lemma_bad_escape_has_room(src, i + 1);
            lemma_offset_grows(src, i, i + 3);
        },
        _ => {},
    }
}

/// The span of every token, and of the error where there is one, lies
/// within the source.
pub proof fn lemma_lex_spans(src: Seq<char>, i: int)
    requires
        0 <= i <= src.len(),
        byte_len(src) <= usize::MAX,
    ensures
        match lex_from(src, i) {
            Ok(tokens) => forall|k: int|
                0 <= k < tokens.len() ==> within((#[trigger] tokens[k]).span(), byte_len(src)),
            Err(e) => e is Spanned && points_within(e, byte_len(src)),
        },
    decreases src.len() - i,
{
    if i < src.len() {
        if is_blank(src[i]) {
            lemma_lex_spans(src, i + 1);
        } else if src[i] == '#' {
            lemma_line_end_bounds(src, i + 1);
            lemma_lex_spans(src, line_end(src, i + 1));
        } else {
            lemma_token_at_advances(src, i);
            lemma_token_span(src, i);
            match token_at(src, i) {
                Ok((token, next)) => {
                    lemma_lex_spans(src, next);
                    match lex_from(src, next) {
                        Ok(rest) => {
                            let tokens = seq![token] + rest;
                            assert forall|k: int| 0 <= k < tokens.len() implies within(
                                (#[trigger] tokens[k]).span(),
                                byte_len(src),
                            ) by {
                                if k > 0 {
                                    assert(tokens[k] == rest[k - 1]);
                                }
                            }
                        },
                        Err(_) => {},
                    }
                },
                Err(_) => {},
            }
        }
    }
}

/// The error of a source text whose byte offsets do not all fit a machine
/// integer. No text that a machine holds is that long.
pub open spec fn too_long() -> ErrorView {
    ErrorView::General("source text too long"@)
}

/// The tokens of a source text, or the first error in it.
pub open spec fn lex(src: Seq<char>) -> Result<Seq<TokenView>, ErrorView> {
    if byte_len(src) > usize::MAX {
        Err(too_long())
    } else {
        lex_from(src, 0)
    }
}

/// Each character takes at least one byte, so offsets grow with indices.
pub proof fn lemma_offset_grows(src: Seq<char>, i: int, j: int)
    requires
        0 <= i <= j <= src.len(),
    ensures
        offset(src, i) + (j - i) <= offset(src, j),
        offset(src, j) <= byte_len(src),
{
    lemma_offset_gap(src, i, j);
    lemma_offset_gap(src, j, src.len() as int);
    assert(src.take(src.len() as int) =~= src);
}

proof fn lemma_offset_gap(src: Seq<char>, i: int, j: int)
    requires
        0 <= i <= j <= src.len(),
    ensures
        offset(src, i) + (j - i) <= offset(src, j),
    decreases j - i,
{
    if i < j {
        lemma_offset_gap(src, i, j - 1);
        assert(src.take(j).drop_last() =~= src.take(j - 1));
    }
}

/// The offset after a character is the offset before it plus its width.
pub proof fn lemma_offset_step(src: Seq<char>, i: int)
    requires
        0 <= i < src.len(),
    ensures
        offset(src, i + 1) == offset(src, i) + utf8_width(src[i]),
        offset(src, 0) == 0,
{
    assert(src.take(i + 1).drop_last() =~= src.take(i));
    assert(src.take(0) =~= Seq::<char>::empty());
}

pub(crate) fn is_whitespace_char(c: char) -> (res: bool)
    ensures
        res == is_whitespace(c),
{
    let u: u32 = c as u32;
    (0x09 <= u && u <= 0x0D) || u == 0x20 || u == 0x85 || u == 0xA0 || u == 0x1680 || (0x2000
        <= u && u <= 0x200A) || u == 0x2028 || u == 0x2029 || u == 0x202F || u == 0x205F || u
        == 0x3000
}

fn is_blank_char(c: char) -> (res: bool)
    ensures
        res == is_blank(c),
{
    c == ' ' || c == '\t' || c == '\n' || c == '\r'
}

fn width_of(c: char) -> (res: usize)
    ensures
        res == utf8_width(c),
{
    let u: u32 = c as u32;
    if u < 0x80 {
        1
    } else if u < 0x800 {
        2
    } else if u < 0x10000 {
        3
    } else {
        4
    }
}

pub(crate) fn characters(src: &str) -> (res: Vec<char>)
    ensures
        res@ == src@,
{
    let mut chars: Vec<char> = Vec::new();
    for c in it: src.chars()
        invariant
            chars@ == it.seq().take(it.index() as int),
            it.seq() == src@,
    {
        chars.push(c);
    }
    chars
}

pub(crate) fn offsets_of(chars: &Vec<char>) -> (res: Option<Vec<usize>>)
    ensures
        match res {
            Some(offsets) => {
                &&& byte_len(chars@) <= usize::MAX
                &&& offsets.len() == chars.len() + 1
                &&& forall|k: int|
                    0 <= k <= chars.len() ==> (#[trigger] offsets[k]) == offset(chars@, k)
            },
            None => byte_len(chars@) > usize::MAX,
        },
{
    let mut offsets: Vec<usize> = Vec::new();
    let mut off: usize = 0;
    let mut k: usize = 0;
    offsets.push(off);
    proof {
        assert(chars@.take(0) =~= Seq::<char>::empty());
    }
    while k < chars.len()
        invariant
            k <= chars.len(),
            offsets.len() == k + 1,
            off == offset(chars@, k as int),
            forall|j: int| 0 <= j <= k ==> (#[trigger] offsets[j]) == offset(chars@, j),
        decreases chars.len() - k,
    {
        proof {
            lemma_offset_step(chars@, k as int);
            lemma_offset_grows(chars@, k as int + 1, chars.len() as int);
        }
        off = match off.checked_add(width_of(chars[k])) {
            Some(next) => next,
            None => {
                return None;
            },
        };
        offsets.push(off);
        k = k + 1;
    }
    proof {
        lemma_offset_grows(chars@, chars.len() as int, chars.len() as int);
        assert(chars@.take(chars.len() as int) =~= chars@);
    }
    Some(offsets)
}

fn find_word_end(chars: &Vec<char>, from: usize) -> (end: usize)
    requires
        from <= chars.len(),
    ensures
        end == word_end(chars@, from as int),
        from <= end <= chars.len(),
{
    let mut end: usize = from;
    while end < chars.len() && !is_whitespace_char(chars[end])
        invariant
            from <= end <= chars.len(),
            word_end(chars@, from as int) == word_end(chars@, end as int),
        decreases chars.len() - end,
    {
        end = end + 1;
    }
    end
}

pub(crate) fn find_line_end(chars: &Vec<char>, from: usize) -> (end: usize)
    requires
        from <= chars.len(),
    ensures
        end == line_end(chars@, from as int),
        from <= end <= chars.len(),
{
    let mut end: usize = from;
    while end < chars.len() && chars[end] != '\n'
        invariant
            from <= end <= chars.len(),
            line_end(chars@, from as int) == line_end(chars@, end as int),
        decreases chars.len() - end,
    {
        end = end + 1;
    }
    end
}

pub(crate) fn copy_range(chars: &Vec<char>, from: usize, to: usize) -> (res: String)
    requires
        from <= to <= chars.len(),
    ensures
        res@ == chars@.subrange(from as int, to as int),
{
    let mut out = String::new();
    let mut k: usize = from;
    while k < to
        invariant
            from <= k <= to <= chars.len(),
            out@ == chars@.subrange(from as int, k as int),
        decreases to - k,
    {
        out.push(chars[k]);
        k = k + 1;
        assert(out@ =~= chars@.subrange(from as int, k as int));
    }
    out
}

fn digit_of(c: char) -> (res: Option<u64>)
    ensures
        res is Some <==> is_digit(c),
        res matches Some(d) ==> d == crate::text::digit_value(c) && d < 10,
{
    if '0' <= c && c <= '9' {
        Some((c as u32 - '0' as u32) as u64)
    } else {
        None
    }
}

fn read_number(chars: &Vec<char>, from: usize, to: usize) -> (res: Option<u64>)
    requires
        from <= to <= chars.len(),
    ensures
        ({
            let digits = chars@.subrange(from as int, to as int);
            match res {
                Some(n) => all_digits(digits) && n == decimal_value(digits),
                None => !(all_digits(digits) && decimal_value(digits) <= u64::MAX),
            }
        }),
{
    let ghost digits = chars@.subrange(from as int, to as int);
    let mut acc: u64 = 0;
    let mut k: usize = from;
    while k < to
        invariant
            from <= k <= to <= chars.len(),
            digits == chars@.subrange(from as int, to as int),
            all_digits(digits.take(k - from)),
            acc == decimal_value(digits.take(k - from)),
        decreases to - k,
    {
        let ghost before = digits.take(k - from);
        let ghost upto = digits.take(k - from + 1);
        proof {
            assert(upto.drop_last() =~= before);
            assert(upto.last() == chars@[k as int]);
            lemma_decimal_value_grows(digits, k - from + 1);
        }
        let d = match digit_of(chars[k]) {
            Some(d) => d,
            None => {
                assert(!is_digit(digits[k - from]));
                return None;
            },
        };
        let shifted = match acc.checked_mul(10) {
            Some(v) => v,
            None => {
                return None;
            },
        };
        let total = match shifted.checked_add(d) {
            Some(v) => v,
            None => {
                return None;
            },
        };
        acc = total;
        k = k + 1;
        assert(all_digits(upto)) by {
            assert forall|j: int| 0 <= j < upto.len() implies is_digit(#[trigger] upto[j]) by {
                if j < before.len() {
                    assert(upto[j] == before[j]);
                }
            }
        }
    }
    assert(digits.take(k - from) =~= digits);
    Some(acc)
}

/// How reading a text literal ended; the executable twin of [`Literal`].
enum LiteralRead {
    Closed(String, usize),
    Open(String),
    BadEscape,
    DanglingEscape,
}

impl View for LiteralRead {
    type V = Literal;

    closed spec fn view(&self) -> Literal {
        match self {
            LiteralRead::Closed(s, next) => Literal::Closed(s@, *next as int),
            LiteralRead::Open(s) => Literal::Open(s@),
            LiteralRead::BadEscape => Literal::BadEscape,
            LiteralRead::DanglingEscape => Literal::DanglingEscape,
        }
    }
}

fn unescape_char(c: char) -> (res: Option<char>)
    ensures
        res == unescape(c),
{
    if c == 'n' {
        Some('\n')
    } else if c == 't' {
        Some('\t')
    } else if c == '"' {
        Some('"')
    } else if c == '\\' {
        Some('\\')
    } else {
        None
    }
}

proof fn lemma_after_all_push(lit: Literal, prefix: Seq<char>, c: char)
    ensures
        lit.after(c).after_all(prefix) == lit.after_all(prefix.push(c)),
{
    match lit {
        Literal::Closed(s, _) => {
            assert(prefix + (seq![c] + s) =~= prefix.push(c) + s);
        },
        Literal::Open(s) => {
            assert(prefix + (seq![c] + s) =~= prefix.push(c) + s);
        },
        _ => {},
    }
}

fn read_literal(chars: &Vec<char>, start: usize) -> (res: LiteralRead)
    requires
        start <= chars.len(),
    ensures
        res@ == scan_literal(chars@, start as int),
{
    let mut text = String::new();
    let mut j: usize = start;
    proof {
        let whole = scan_literal(chars@, start as int);
        match whole {
            Literal::Closed(s, _) => {
                assert(Seq::<char>::empty() + s =~= s);
            },
            Literal::Open(s) => {
                assert(Seq::<char>::empty() + s =~= s);
            },
            _ => {},
        }
    }
    while j < chars.len()
        invariant
            start <= j <= chars.len(),
            scan_literal(chars@, start as int) == scan_literal(chars@, j as int).after_all(text@),
        decreases chars.len() - j,
    {
        let c = chars[j];
        if c == '"' {
            assert(text@ + Seq::<char>::empty() =~= text@);
            return LiteralRead::Closed(text, j + 1);
        } else if c == '\\' {
            if j + 1 >= chars.len() {
                return LiteralRead::DanglingEscape;
            }
            match unescape_char(chars[j + 1]) {
                Some(plain) => {
                    proof {
                        lemma_after_all_push(scan_literal(chars@, j as int + 2), text@, plain);
                    }
                    text.push(plain);
                    j = j + 2;
                },
                None => {
                    return LiteralRead::BadEscape;
                },
            }
        } else {
            proof {
                lemma_after_all_push(scan_literal(chars@, j as int + 1), text@, c);
            }
            text.push(c);
            j = j + 1;
        }
    }
    assert(text@ + Seq::<char>::empty() =~= text@);
    LiteralRead::Open(text)
}

fn next_token(chars: &Vec<char>, offsets: &Vec<usize>, i: usize) -> (res: Result<
    (Token, usize),
    Error,
>)
    requires
        i < chars.len(),
        byte_len(chars@) <= usize::MAX,
        offsets.len() == chars.len() + 1,
        forall|k: int| 0 <= k <= chars.len() ==> (#[trigger] offsets[k]) == offset(chars@, k),
    ensures
        match res {
            Ok((token, next)) => token_at(chars@, i as int) == Ok::<(TokenView, int), ErrorView>(
                (token@, next as int),
            ),
            Err(e) => token_at(chars@, i as int) == Err::<(TokenView, int), ErrorView>(e@),
        },
{
    let c = chars[i];
    if '0' <= c && c <= '9' {
        let end = find_word_end(chars, i + 1);
        let span = Span(offsets[i], offsets[end]);
        match read_number(chars, i, end) {
            Some(n) => Ok((Token::Num(n, span), end)),
            None => Err(Error::Spanned("invalid number literal".to_string(), span)),
        }
    } else if c == '-' {
        if i + 1 < chars.len() && chars[i + 1] == '>' {
            Ok((Token::Arrow(Span(offsets[i], offsets[i + 2])), i + 2))
        } else if i + 1 < chars.len() && is_blank_char(chars[i + 1]) {
            Ok((Token::Name("-".to_string(), Span(offsets[i], offsets[i + 1])), i + 2))
        } else {
            Err(
                Error::Spanned(
                    "expected '>' or whitespace after '-'".to_string(),
                    Span(offsets[i], offsets[i + 1]),
                ),
            )
        }
    } else if c == '"' {
        proof {
            lemma_scan_literal_bounds(chars@, i as int + 1);
            lemma_offset_grows(chars@, i as int, i as int + 1);
        }
        match read_literal(chars, i + 1) {
            LiteralRead::Closed(text, next) => Ok(
                (Token::String(text, Span(offsets[i], offsets[next])), next),
            ),
            LiteralRead::Open(text) => Ok(
                (Token::String(text, Span(offsets[i], offsets[chars.len()])), chars.len()),
            ),
            LiteralRead::BadEscape => {
                proof {
                    lemma_bad_escape_has_room(chars@, i as int + 1);
                    lemma_offset_grows(chars@, i as int, i as int + 3);
                }
                Err(
                    Error::Spanned(
                        "invalid escape sequence".to_string(),
                        Span(offsets[i], offsets[i] + 2),
                    ),
                )
            },
            LiteralRead::DanglingEscape => Err(
                Error::Spanned(
                    "unfinished escape sequence".to_string(),
                    Span(offsets[i], offsets[i] + 1),
                ),
            ),
        }
    } else {
        let end = find_word_end(chars, i + 1);
        if c == '\\' {
            Ok((Token::Decl(copy_range(chars, i + 1, end), Span(offsets[i + 1], offsets[end])), end))
        } else {
            Ok((Token::Name(copy_range(chars, i, end), Span(offsets[i], offsets[end])), end))
        }
    }
}

/// A literal with a bad escape holds at least the backslash and the
/// character after it.
proof fn lemma_bad_escape_has_room(src: Seq<char>, j: int)
    requires
        0 <= j <= src.len(),
        scan_literal(src, j) is BadEscape,
    ensures
        j + 2 <= src.len(),
    decreases src.len() - j,
{
    if j < src.len() && src[j] != '"' {
        if src[j] == '\\' {
            if j + 1 < src.len() && unescape(src[j + 1]) is Some {
                lemma_bad_escape_has_room(src, j + 2);
            }
        } else {
            lemma_bad_escape_has_room(src, j + 1);
        }
    }
}

/// Splits a source text into tokens.
///
/// Blanks separate tokens and `#` starts a comment that runs to the end of
/// the line. The result is exactly what [`lex`] gives: all the tokens, or the
/// first error in the text.
pub fn tokenize(src: &str) -> (res: Result<Vec<Token>, Error>)
    ensures
        match res {
            Ok(tokens) => {
                &&& lex(src@) == Ok::<Seq<TokenView>, ErrorView>(tokens_view(tokens@))
                &&& forall|k: int|
                    0 <= k < tokens.len() ==> within((#[trigger] tokens[k])@.span(), byte_len(src@))
            },
            Err(e) => {
                &&& lex(src@) == Err::<Seq<TokenView>, ErrorView>(e@)
                &&& points_within(e@, byte_len(src@))
            },
        },
{
    proof {
        if byte_len(src@) <= usize::MAX {
            lemma_lex_spans(src@, 0);
        }
    }
    let chars = characters(src);
    let offsets = match offsets_of(&chars) {
        Some(offsets) => offsets,
        None => {
            return Err(Error::General("source text too long".to_string()));
        },
    };
    let mut tokens: Vec<Token> = Vec::new();
    let mut i: usize = 0;
    assert(tokens_view(tokens@) =~= Seq::<TokenView>::empty());
    while i < chars.len()
        invariant
            i <= chars.len(),
            chars@ == src@,
            byte_len(chars@) <= usize::MAX,
            offsets.len() == chars.len() + 1,
            forall|k: int| 0 <= k <= chars.len() ==> (#[trigger] offsets[k]) == offset(chars@, k),
            lex(src@) == match lex_from(src@, i as int) {
                Ok(rest) => Ok::<Seq<TokenView>, ErrorView>(tokens_view(tokens@) + rest),
                Err(e) => Err::<Seq<TokenView>, ErrorView>(e),
            },
            lex(src@) matches Err(e) ==> points_within(e, byte_len(src@)),
        decreases chars.len() - i,
    {
        let c = chars[i];
        if is_blank_char(c) {
            i = i + 1;
        } else if c == '#' {
            i = find_line_end(&chars, i + 1);
        } else {
            proof {
                lemma_token_at_advances(chars@, i as int);
            }
            match next_token(&chars, &offsets, i) {
                Err(e) => {
                    return Err(e);
                },
                Ok((token, next)) => {
                    let ghost before = tokens_view(tokens@);
                    let ghost tv = token@;
                    tokens.push(token);
                    proof {
                        assert(tokens_view(tokens@) =~= before.push(tv));
                        match lex_from(src@, next as int) {
                            Ok(rest) => {
                                assert(before + (seq![tv] + rest) =~= before.push(tv) + rest);
                            },
                            Err(_) => {},
                        }
                    }
                    i = next;
                },
            }
        }
    }
    proof {
        let views = tokens_view(tokens@);
        assert(views + Seq::<TokenView>::empty() =~= views);
        lemma_lex_spans(src@, 0);
        assert(forall|k: int|
            0 <= k < views.len() ==> within((#[trigger] views[k]).span(), byte_len(src@)));
        assert forall|k: int| 0 <= k < tokens.len() implies within(
            (#[trigger] tokens[k])@.span(),
            byte_len(src@),
        ) by {
            assert(views[k] == tokens[k]@);
        }
    }
    Ok(tokens)
}

} // verus!
