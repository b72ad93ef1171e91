//! Lexer for the `sil` document format.
//!
//! `lex` converts raw text into a flat, ordered sequence of tokens and never
//! reports failure; at worst it produces a token that spans to end of input.
//! Scanning works on whole characters, never on raw bytes, so multi-byte
//! characters are never split. Every token records the exact substring of
//! the source it was lexed from together with the character position where
//! that substring starts, so later stages can splice contiguous source
//! ranges back together without inventing separators.

use vstd::prelude::*;

verus! {

/// The seven lexical kinds of the `sil` grammar.
#[derive(Clone, Copy, Debug, PartialEq, Eq, Structural)]
pub enum TokenKind {
    Number,
    Text,
    Quoted,
    OpenBracket,
    CloseBracket,
    Colon,
    EqualSign,
}

/// Mathematical model of one token: its kind, the exact source substring it
/// stores, and the character index of that substring in the source.
pub struct SpecToken {
    pub kind: TokenKind,
    pub text: Seq<char>,
    pub start: int,
}

/// The stored text of a token: the exact substring of the source it was
/// lexed from, together with the character index where it begins.
#[derive(Debug, PartialEq, Eq)]
pub struct Span {
    pub text: String,
    pub start: usize,
}

/// One token. Each variant stores the exact source substring it was lexed
/// from; a `Quoted` token stores its surrounding quote characters, which the
/// [`Token::text`] accessor strips.
#[derive(Debug, PartialEq, Eq)]
pub enum Token {
    Number(Span),
    Text(Span),
    Quoted(Span),
    OpenBracket(Span),
    CloseBracket(Span),
    Colon(Span),
    EqualSign(Span),
}

impl Token {
    pub open spec fn spec_span(&self) -> Span {
        match self {
            Token::Number(s) => *s,
            Token::Text(s) => *s,
            Token::Quoted(s) => *s,
            Token::OpenBracket(s) => *s,
            Token::CloseBracket(s) => *s,
            Token::Colon(s) => *s,
            Token::EqualSign(s) => *s,
        }
    }

    pub open spec fn spec_kind(&self) -> TokenKind {
        match self {
            Token::Number(_) => TokenKind::Number,
            Token::Text(_) => TokenKind::Text,
            Token::Quoted(_) => TokenKind::Quoted,
            Token::OpenBracket(_) => TokenKind::OpenBracket,
            Token::CloseBracket(_) => TokenKind::CloseBracket,
            Token::Colon(_) => TokenKind::Colon,
            Token::EqualSign(_) => TokenKind::EqualSign,
        }
    }
}

impl View for Token {
    type V = SpecToken;

    open spec fn view(&self) -> SpecToken {
        SpecToken {
            kind: self.spec_kind(),
            text: self.spec_span().text@,
            start: self.spec_span().start as int,
        }
    }
}

/// The models of a sequence of tokens, element-wise.
pub open spec fn views_of(tokens: Seq<Token>) -> Seq<SpecToken> {
    tokens.map_values(|t: Token| t@)
}

// ----------------------------------------------------------------------------
// Character classes
// ----------------------------------------------------------------------------

pub open spec fn is_digit_char(c: char) -> bool {
    '0' <= c && c <= '9'
}

/// Blank characters are skipped between tokens and produce no token.
pub open spec fn is_blank_char(c: char) -> bool {
    c == ' ' || c == '\n'
}

/// Characters that end a plain text run.
pub open spec fn is_delimiter_char(c: char) -> bool {
    c == '=' || c == ':' || c == '[' || c == ']'
}

// ----------------------------------------------------------------------------
// The lexing function, as a mathematical definition
// ----------------------------------------------------------------------------

/// End of the maximal run of digits and dots starting at `i`. Numeric
/// well-formedness is not validated: several dots are accepted lexically.
pub open spec fn number_end(src: Seq<char>, i: int) -> int
    decreases src.len() - i
    when 0 <= i <= src.len()
{
    if i == src.len() {
        i
    } else if is_digit_char(src[i]) || src[i] == '.' {
        number_end(src, i + 1)
    } else {
        i
    }
}

/// End of the maximal run starting at `i` of characters that are not
/// delimiters.
pub open spec fn text_run_end(src: Seq<char>, i: int) -> int
    decreases src.len() - i
    when 0 <= i <= src.len()
{
    if i == src.len() {
        i
    } else if is_delimiter_char(src[i]) {
        i
    } else {
        text_run_end(src, i + 1)
    }
}

/// Position one past the next `"` at or after `i`, or end of input if no
/// quote follows.
pub open spec fn quoted_scan(src: Seq<char>, i: int) -> int
    decreases src.len() - i
    when 0 <= i <= src.len()
{
    if i == src.len() {
        i
    } else if src[i] == '"' {
        i + 1
    } else {
        quoted_scan(src, i + 1)
    }
}

/// End of a quoted run whose opening quote stands at `i`: one past the
/// closing quote, or end of input for an unterminated quote.
pub open spec fn quoted_end(src: Seq<char>, i: int) -> int {
    quoted_scan(src, i + 1)
}

/// Largest `k` with `i <= k <= j` such that no newline stands directly
/// before `k` within the run, i.e. `j` with trailing newlines removed.
pub open spec fn trimmed_end(src: Seq<char>, i: int, j: int) -> int
    decreases j - i
    when 0 <= i <= j <= src.len()
{
    if j > i && src[j - 1] == '\n' {
        trimmed_end(src, i, j - 1)
    } else {
        j
    }
}

pub proof fn lemma_number_end(src: Seq<char>, i: int)
    requires
        0 <= i <= src.len(),
    ensures
        i <= number_end(src, i) <= src.len(),
        i < src.len() && (is_digit_char(src[i]) || src[i] == '.') ==> i < number_end(src, i),
    decreases src.len() - i,
{
    if i < src.len() && (is_digit_char(src[i]) || src[i] == '.') {
        lemma_number_end(src, i + 1);
    }
}

pub proof fn lemma_text_run_end(src: Seq<char>, i: int)
    requires
        0 <= i <= src.len(),
    ensures
        i <= text_run_end(src, i) <= src.len(),
        i < src.len() && !is_delimiter_char(src[i]) ==> i < text_run_end(src, i),
    decreases src.len() - i,
{
    if i < src.len() && !is_delimiter_char(src[i]) {
        lemma_text_run_end(src, i + 1);
    }
}

pub proof fn lemma_quoted_scan(src: Seq<char>, i: int)
    requires
        0 <= i <= src.len(),
    ensures
        i <= quoted_scan(src, i) <= src.len(),
    decreases src.len() - i,
{
    if i < src.len() && src[i] != '"' {
        lemma_quoted_scan(src, i + 1);
    }
}

pub proof fn lemma_trimmed_end(src: Seq<char>, i: int, j: int)
    requires
        0 <= i <= j <= src.len(),
    ensures
        i <= trimmed_end(src, i, j) <= j,
    decreases j - i,
{
    if j > i && src[j - 1] == '\n' {
        lemma_trimmed_end(src, i, j - 1);
    }
}

/// The token sequence that lexing the source yields from position `i` on.
pub open spec fn spec_lex_from(src: Seq<char>, i: int) -> Seq<SpecToken>
    decreases src.len() - i
    when 0 <= i <= src.len()
    via spec_lex_from_decreases
{
    if i == src.len() {
        Seq::empty()
    } else {
        let c = src[i];
        if is_digit_char(c) {
            let j = number_end(src, i);
            seq![SpecToken { kind: TokenKind::Number, text: src.subrange(i, j), start: i }]
                + spec_lex_from(src, j)
        } else if is_blank_char(c) {
            spec_lex_from(src, i + 1)
        } else if c == '"' {
            let j = quoted_end(src, i);
            seq![SpecToken { kind: TokenKind::Quoted, text: src.subrange(i, j), start: i }]
                + spec_lex_from(src, j)
        } else if c == '[' {
            seq![SpecToken { kind: TokenKind::OpenBracket, text: src.subrange(i, i + 1), start: i }]
                + spec_lex_from(src, i + 1)
        } else if c == ']' {
            seq![SpecToken { kind: TokenKind::CloseBracket, text: src.subrange(i, i + 1), start: i }]
                + spec_lex_from(src, i + 1)
        } else if c == ':' {
            seq![SpecToken { kind: TokenKind::Colon, text: src.subrange(i, i + 1), start: i }]
                + spec_lex_from(src, i + 1)
        } else if c == '=' {
            seq![SpecToken { kind: TokenKind::EqualSign, text: src.subrange(i, i + 1), start: i }]
                + spec_lex_from(src, i + 1)
        } else {
            let j = text_run_end(src, i);
            let k = trimmed_end(src, i, j);
            seq![SpecToken { kind: TokenKind::Text, text: src.subrange(i, k), start: i }]
                + spec_lex_from(src, j)
        }
    }
}

#[via_fn]
proof fn spec_lex_from_decreases(src: Seq<char>, i: int) {
    if 0 <= i < src.len() {
        lemma_number_end(src, i);
        lemma_text_run_end(src, i);
        if src[i] == '"' {
            lemma_quoted_scan(src, i + 1);
        }
    }
}

/// The token sequence that lexing the whole source yields.
pub open spec fn spec_lex(src: Seq<char>) -> Seq<SpecToken> {
    spec_lex_from(src, 0)
}

// ----------------------------------------------------------------------------
// Well-formedness of tokens against their source
// ----------------------------------------------------------------------------

/// The token stores the exact, non-empty source substring starting at its
/// recorded position.
pub open spec fn token_wf(src: Seq<char>, t: SpecToken) -> bool {
    &&& 1 <= t.text.len()
    &&& 0 <= t.start
    &&& t.start + t.text.len() <= src.len()
    &&& t.text == src.subrange(t.start, t.start + t.text.len())
}

/// End of the last token's stored text, or 0 for no tokens.
pub open spec fn tokens_end(toks: Seq<SpecToken>) -> int {
    if toks.len() == 0 {
        0
    } else {
        toks.last().start + toks.last().text.len()
    }
}

/// Every token stores the exact source substring at its position, and the
/// stored substrings appear in source order without overlap.
pub open spec fn tokens_wf(src: Seq<char>, toks: Seq<SpecToken>) -> bool {
    &&& forall|i: int| 0 <= i < toks.len() ==> token_wf(src, #[trigger] toks[i])
    &&& forall|i: int|
        0 <= i < toks.len() - 1 ==> (#[trigger] toks[i].start) + toks[i].text.len()
            <= toks[i + 1].start
}

// ----------------------------------------------------------------------------
// Token text: what a token contributes to bodies and diagnostics
// ----------------------------------------------------------------------------

/// The stored text with the surrounding quote characters removed: nothing is
/// left of fewer than two characters; otherwise the first character goes,
/// and so does a closing quote if one ends the text.
pub open spec fn strip_quotes(s: Seq<char>) -> Seq<char> {
    if s.len() < 2 {
        Seq::empty()
    } else if s[s.len() - 1] == '"' {
        s.subrange(1, s.len() - 1)
    } else {
        s.subrange(1, s.len() as int)
    }
}

/// The text a token contributes to output: quote-stripped for `Quoted`
/// tokens, the stored text for every other kind.
pub open spec fn token_text(t: SpecToken) -> Seq<char> {
    if t.kind is Quoted {
        strip_quotes(t.text)
    } else {
        t.text
    }
}

/// Character position in the source where `token_text` begins.
pub open spec fn text_start(t: SpecToken) -> int {
    if t.kind is Quoted {
        t.start + 1
    } else {
        t.start
    }
}

/// Character position in the source just past `token_text`.
pub open spec fn text_end(t: SpecToken) -> int {
    if t.kind is Quoted {
        if t.text.len() < 2 {
            t.start + 1
        } else if t.text[t.text.len() - 1] == '"' {
            t.start + t.text.len() - 1
        } else {
            t.start + t.text.len()
        }
    } else {
        t.start + t.text.len()
    }
}

/// For a well-formed token, its contributed text is exactly the source span
/// between `text_start` and `text_end`.
pub proof fn lemma_token_text_is_span(src: Seq<char>, t: SpecToken)
    requires
        token_wf(src, t),
    ensures
        t.start <= text_start(t) <= text_end(t) <= t.start + t.text.len(),
        token_text(t) == src.subrange(text_start(t), text_end(t)),
{
    assert(token_text(t) =~= src.subrange(text_start(t), text_end(t)));
}

// ----------------------------------------------------------------------------
// Executable token accessors
// ----------------------------------------------------------------------------

impl Token {
    /// A bracket token `[` standing at the given character position.
    pub fn open_bracket(start: usize) -> (t: Token)
        ensures
            t@ == (SpecToken { kind: TokenKind::OpenBracket, text: "["@, start: start as int }),
    {
        Token::OpenBracket(Span { text: String::from_str("["), start })
    }

    /// A bracket token `]` standing at the given character position.
    pub fn close_bracket(start: usize) -> (t: Token)
        ensures
            t@ == (SpecToken { kind: TokenKind::CloseBracket, text: "]"@, start: start as int }),
    {
        Token::CloseBracket(Span { text: String::from_str("]"), start })
    }

    /// A colon token standing at the given character position.
    pub fn colon(start: usize) -> (t: Token)
        ensures
            t@ == (SpecToken { kind: TokenKind::Colon, text: ":"@, start: start as int }),
    {
        Token::Colon(Span { text: String::from_str(":"), start })
    }

    /// An equal-sign token standing at the given character position.
    pub fn equal_sign(start: usize) -> (t: Token)
        ensures
            t@ == (SpecToken { kind: TokenKind::EqualSign, text: "="@, start: start as int }),
    {
        Token::EqualSign(Span { text: String::from_str("="), start })
    }

    /// The token's lexical kind.
    pub fn kind(&self) -> (k: TokenKind)
        ensures
            k == self@.kind,
    {
        match self {
            Token::Number(_) => TokenKind::Number,
            Token::Text(_) => TokenKind::Text,
            Token::Quoted(_) => TokenKind::Quoted,
            Token::OpenBracket(_) => TokenKind::OpenBracket,
            Token::CloseBracket(_) => TokenKind::CloseBracket,
            Token::Colon(_) => TokenKind::Colon,
            Token::EqualSign(_) => TokenKind::EqualSign,
        }
    }

    /// The exact source substring the token was lexed from.
    pub fn raw_text(&self) -> (r: &str)
        ensures
            r@ == self@.text,
    {
        match self {
            Token::Number(s) => s.text.as_str(),
            Token::Text(s) => s.text.as_str(),
            Token::Quoted(s) => s.text.as_str(),
            Token::OpenBracket(s) => s.text.as_str(),
            Token::CloseBracket(s) => s.text.as_str(),
            Token::Colon(s) => s.text.as_str(),
            Token::EqualSign(s) => s.text.as_str(),
        }
    }

    /// The character position of the stored text in the source.
    pub fn start(&self) -> (r: usize)
        ensures
            r as int == self@.start,
    {
        match self {
            Token::Number(s) => s.start,
            Token::Text(s) => s.start,
            Token::Quoted(s) => s.start,
            Token::OpenBracket(s) => s.start,
            Token::CloseBracket(s) => s.start,
            Token::Colon(s) => s.start,
            Token::EqualSign(s) => s.start,
        }
    }

    /// The text the token contributes to output: for a `Quoted` token the
    /// stored text with its surrounding quote characters stripped, for every
    /// other kind the stored text itself.
    pub fn text(&self) -> (r: String)
        ensures
            r@ == token_text(self@),
    {
        match self {
            Token::Quoted(s) => remove_quotes(s.text.as_str()),
            _ => self.raw_text().to_owned(),
        }
    }
}

/// Strips the surrounding quote characters from the stored text of a quoted
/// token, accepting unterminated quotes.
fn remove_quotes(quoted: &str) -> (r: String)
    ensures
        r@ == strip_quotes(quoted@),
{
    let n: usize = quoted.unicode_len();
    if n < 2 {
        String::new()
    } else if quoted.get_char(n - 1) == '"' {
        quoted.substring_char(1, n - 1).to_owned()
    } else {
        quoted.substring_char(1, n).to_owned()
    }
}

// ----------------------------------------------------------------------------
// Executable lexer
// ----------------------------------------------------------------------------

fn is_number_char(c: char) -> (b: bool)
    ensures
        b == (is_digit_char(c) || c == '.'),
{
    ('0' <= c && c <= '9') || c == '.'
}

/// End of the maximal digit-and-dot run starting at `start`.
fn lex_number(content: &str, start: usize) -> (end: usize)
    requires
        start <= content@.len(),
    ensures
        end as int == number_end(content@, start as int),
        start <= end <= content@.len(),
{
    let n: usize = content.unicode_len();
    let mut j: usize = start;
    while j < n && is_number_char(content.get_char(j))
        invariant
            n == content@.len(),
            start <= j <= n,
            number_end(content@, start as int) == number_end(content@, j as int),
        decreases n - j,
    {
        j = j + 1;
    }
    j
}

/// End of the maximal non-delimiter run starting at `start`.
fn lex_text(content: &str, start: usize) -> (end: usize)
    requires
        start <= content@.len(),
    ensures
        end as int == text_run_end(content@, start as int),
        start <= end <= content@.len(),
{
    let n: usize = content.unicode_len();
    let mut j: usize = start;
    while j < n && !is_delimiter(content.get_char(j))
        invariant
            n == content@.len(),
            start <= j <= n,
            text_run_end(content@, start as int) == text_run_end(content@, j as int),
        decreases n - j,
    {
        j = j + 1;
    }
    j
}

fn is_delimiter(c: char) -> (b: bool)
    ensures
        b == is_delimiter_char(c),
{
    c == '=' || c == ':' || c == '[' || c == ']'
}

/// End of a quoted run whose opening quote stands at `start`: one past the
/// closing quote, or end of input when no closing quote exists.
fn lex_quoted(content: &str, start: usize) -> (end: usize)
    requires
        start < content@.len(),
    ensures
        end as int == quoted_end(content@, start as int),
        start < end <= content@.len(),
{
    let n: usize = content.unicode_len();
    let mut j: usize = start + 1;
    while j < n && content.get_char(j) != '"'
        invariant
            n == content@.len(),
            start + 1 <= j <= n,
            quoted_scan(content@, start as int + 1) == quoted_scan(content@, j as int),
        decreases n - j,
    {
        j = j + 1;
    }
    if j < n {
        j + 1
    } else {
        j
    }
}

/// Largest end position at most `end` such that no trailing newline of the
/// run `start..end` remains.
fn remove_trailing_new_lines(content: &str, start: usize, end: usize) -> (k: usize)
    requires
        start <= end <= content@.len(),
    ensures
        k as int == trimmed_end(content@, start as int, end as int),
        start <= k <= end,
{
    let mut k: usize = end;
    while k > start && content.get_char(k - 1) == '\n'
        invariant
            content@.len() >= end,
            start <= k <= end,
            trimmed_end(content@, start as int, end as int) == trimmed_end(
                content@,
                start as int,
                k as int,
            ),
        decreases k,
    {
        k = k - 1;
    }
    k
}

proof fn lemma_views_of_push(toks: Seq<Token>, t: Token)
    ensures
        views_of(toks.push(t)) == views_of(toks) + seq![t@],
{
    assert(views_of(toks.push(t)) =~= views_of(toks) + seq![t@]);
}

/// Converts raw text into the ordered sequence of its tokens. Never fails;
/// blanks between tokens are skipped, an unterminated quote extends to end
/// of input, and trailing newlines of a text run are stripped from the
/// stored text.
pub fn lex(content: &str) -> (tokens: Vec<Token>)
    ensures
        views_of(tokens@) == spec_lex(content@),
        tokens_wf(content@, views_of(tokens@)),
{
    let n: usize = content.unicode_len();
    let mut tokens: Vec<Token> = Vec::new();
    let mut i: usize = 0;
    while i < n
        invariant
            n == content@.len(),
            i <= n,
            spec_lex(content@) == views_of(tokens@) + spec_lex_from(content@, i as int),
            tokens_wf(content@, views_of(tokens@)),
            tokens_end(views_of(tokens@)) <= i,
        decreases n - i,
    {
        let ghost prev = views_of(tokens@);
        let ghost i0 = i as int;
        let ghost src = content@;
        let c = content.get_char(i);
        if '0' <= c && c <= '9' {
            let j: usize = lex_number(content, i);
            proof {
                lemma_number_end(src, i0);
            }
            let text = content.substring_char(i, j).to_owned();
            let t = Token::Number(Span { text, start: i });
            proof {
                lemma_views_of_push(tokens@, t);
                assert(spec_lex_from(src, i0) == seq![t@] + spec_lex_from(src, j as int));
                assert(prev + spec_lex_from(src, i0) =~= (prev + seq![t@]) + spec_lex_from(
                    src,
                    j as int,
                ));
            }
            tokens.push(t);
            i = j;
        } else if c == ' ' || c == '\n' {
            proof {
                assert(spec_lex_from(src, i0) == spec_lex_from(src, i0 + 1));
            }
            i = i + 1;
        } else if c == '"' {
            let j: usize = lex_quoted(content, i);
            let text = content.substring_char(i, j).to_owned();
            let t = Token::Quoted(Span { text, start: i });
            proof {
                lemma_views_of_push(tokens@, t);
                assert(spec_lex_from(src, i0) == seq![t@] + spec_lex_from(src, j as int));
                assert(prev + spec_lex_from(src, i0) =~= (prev + seq![t@]) + spec_lex_from(
                    src,
                    j as int,
                ));
            }
            tokens.push(t);
            i = j;
        } else if c == '[' || c == ']' || c == ':' || c == '=' {
            let text = content.substring_char(i, i + 1).to_owned();
            let t = if c == '[' {
                Token::OpenBracket(Span { text, start: i })
            } else if c == ']' {
                Token::CloseBracket(Span { text, start: i })
            } else if c == ':' {
                Token::Colon(Span { text, start: i })
            } else {
                Token::EqualSign(Span { text, start: i })
            };
            proof {
                lemma_views_of_push(tokens@, t);
                assert(spec_lex_from(src, i0) == seq![t@] + spec_lex_from(src, i0 + 1));
                assert(prev + spec_lex_from(src, i0) =~= (prev + seq![t@]) + spec_lex_from(
                    src,
                    i0 + 1,
                ));
            }
            tokens.push(t);
            i = i + 1;
        } else {
            let j: usize = lex_text(content, i);
            proof {
                lemma_text_run_end(src, i0);
                lemma_trimmed_end(src, i0, j as int);
            }
            let k: usize = remove_trailing_new_lines(content, i, j);
            proof {
                // A run trimmed down to nothing would mean its first
                // character is a newline, which the dispatch excluded.
                if k == i {
                    lemma_trimmed_first_newline(src, i0, j as int);
                }
                assert(k > i);
            }
            let text = content.substring_char(i, k).to_owned();
            let t = Token::Text(Span { text, start: i });
            proof {
                lemma_views_of_push(tokens@, t);
                assert(spec_lex_from(src, i0) == seq![t@] + spec_lex_from(src, j as int));
                assert(prev + spec_lex_from(src, i0) =~= (prev + seq![t@]) + spec_lex_from(
                    src,
                    j as int,
                ));
            }
            tokens.push(t);
            i = j;
        }
    }
    tokens
}

/// If a non-empty run trims down to its start, its first character is a
/// newline.
proof fn lemma_trimmed_first_newline(src: Seq<char>, i: int, j: int)
    requires
        0 <= i < j <= src.len(),
        trimmed_end(src, i, j) == i,
    ensures
        src[i] == '\n',
    decreases j - i,
{
    lemma_trimmed_end(src, i, j);
    if j > i && src[j - 1] == '\n' {
        if j - 1 > i {
            lemma_trimmed_first_newline(src, i, j - 1);
        }
    }
}

// ----------------------------------------------------------------------------
// Attribute-key clean-up
// ----------------------------------------------------------------------------

/// `s` with its trailing space characters removed.
pub open spec fn spec_trim_trailing_spaces(s: Seq<char>) -> Seq<char>
    decreases s.len(),
{
    if s.len() > 0 && s.last() == ' ' {
        spec_trim_trailing_spaces(s.drop_last())
    } else {
        s
    }
}

/// Character-wise equality of two string slices.
pub fn str_eq(a: &str, b: &str) -> (r: bool)
    ensures
        r == (a@ == b@),
{
    let owned_a = a.to_owned();
    let owned_b = b.to_owned();
    owned_a == owned_b
}

/// Removes trailing spaces from an attribute key, so that a key lexed with
/// the blank before its `=` still selects the attribute it names.
pub fn clean_up_for_attribute_key(content: &str) -> (r: String)
    ensures
        r@ == spec_trim_trailing_spaces(content@),
{
    let n: usize = content.unicode_len();
    let mut k: usize = n;
    proof {
        assert(content@.subrange(0, n as int) =~= content@);
    }
    while k > 0 && content.get_char(k - 1) == ' '
        invariant
            n == content@.len(),
            k <= n,
            spec_trim_trailing_spaces(content@) == spec_trim_trailing_spaces(
                content@.subrange(0, k as int),
            ),
        decreases k,
    {
        proof {
            assert(content@.subrange(0, k as int).drop_last() =~= content@.subrange(
                0,
                k as int - 1,
            ));
        }
        k = k - 1;
    }
    proof {
        assert(content@.subrange(0, n as int) =~= content@);
        assert(spec_trim_trailing_spaces(content@.subrange(0, k as int)) == content@.subrange(
            0,
            k as int,
        ));
    }
    content.substring_char(0, k).to_owned()
}

} // verus!
