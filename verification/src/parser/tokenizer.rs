//! The tokenizer of `.orbit` templates: tags, attributes, expressions and
//! text, read one token at a time.
use vstd::prelude::*;
use crate::text::{chars_of, is_digit, is_whitespace, is_ws, push_char, push_str, slice_vec, string_from, trim, trim_vec};

verus! {

/// Whether `char::is_alphanumeric` holds of a character.
pub uninterp spec fn alphanumeric(c: char) -> bool;

/// Whether `char::is_alphabetic` holds of a character.
pub uninterp spec fn alphabetic(c: char) -> bool;

/// Alphanumeric test (`char::is_alphanumeric`): alphabetic or numeric in
/// the Unicode sense. Stated: every alphabetic character is alphanumeric,
/// ASCII letters and digits are, other ASCII characters are not.
#[verifier::external_body]
fn is_alphanumeric(c: char) -> (r: bool)
    ensures
        r == alphanumeric(c),
        alphabetic(c) ==> r,
        ('a' <= c <= 'z' || 'A' <= c <= 'Z' || '0' <= c <= '9') ==> r,
        c <= '\u{7f}' && !('a' <= c <= 'z' || 'A' <= c <= 'Z' || '0' <= c <= '9') ==> !r,
{
    c.is_alphanumeric()
}

/// Alphabetic test (`char::is_alphabetic`, the Unicode `Alphabetic`
/// property). Stated: ASCII letters are alphabetic, other ASCII characters
/// are not.
#[verifier::external_body]
fn is_alphabetic(c: char) -> (r: bool)
    ensures
        r == alphabetic(c),
        ('a' <= c <= 'z' || 'A' <= c <= 'Z') ==> r,
        c <= '\u{7f}' && !('a' <= c <= 'z' || 'A' <= c <= 'Z') ==> !r,
{
    c.is_alphabetic()
}

/// An ASCII letter.
pub open spec fn ascii_letter(c: char) -> bool {
    'a' <= c <= 'z' || 'A' <= c <= 'Z'
}

/// A letter: an ASCII letter, or beyond ASCII an alphabetic character.
pub open spec fn letter(c: char) -> bool {
    if c <= '\u{7f}' {
        ascii_letter(c)
    } else {
        alphabetic(c)
    }
}

/// A letter or digit: an ASCII letter or digit, or beyond ASCII an
/// alphanumeric (or alphabetic) character.
pub open spec fn letter_or_digit(c: char) -> bool {
    if c <= '\u{7f}' {
        ascii_letter(c) || '0' <= c <= '9'
    } else {
        alphanumeric(c) || alphabetic(c)
    }
}

/// What a `str`'s `Debug` formatting writes: the text quoted, with
/// special characters escaped.
pub uninterp spec fn debug_quoted(s: Seq<char>) -> Seq<char>;

/// The `Debug` form of a string (`format!("{:?}", s)`).
#[verifier::external_body]
fn debug_str(s: &str) -> (r: String)
    ensures
        r@ == debug_quoted(s@),
{
    format!("{:?}", s)
}

/// Tokens of a template.
#[derive(Debug, Clone, PartialEq)]
pub enum Token {
    /// `<name` of an opening tag.
    OpenTag(String),
    /// `</name>`.
    CloseTag(String),
    /// `<name/>`.
    SelfClosingTag(String),
    /// An attribute name (followed by `=`), or `@event`.
    AttrName(String),
    /// An attribute value.
    AttrValue(String),
    /// Text between tags.
    Text(String),
    /// `{{`.
    ExprStart,
    /// `}}`.
    ExprEnd,
    /// `=`.
    Equal,
    /// A quote.
    Quote,
    /// `{`.
    OpenBrace,
    /// `}`.
    CloseBrace,
    /// `(`.
    OpenParen,
    /// `)`.
    CloseParen,
    /// `.`.
    Dot,
    /// `,`.
    Comma,
    /// `+`.
    Plus,
    /// `-`.
    Minus,
    /// `*`.
    Star,
    /// `/`.
    Slash,
    /// An identifier.
    Identifier(String),
    /// A number literal.
    Number(String),
    /// A quoted string literal, without its quotes.
    StringLiteral(String),
    /// End of input.
    Eof,
    /// A malformed token, with a message.
    Error(String),
}

/// The content of a token.
pub enum TokenView {
    OpenTag(Seq<char>),
    CloseTag(Seq<char>),
    SelfClosingTag(Seq<char>),
    AttrName(Seq<char>),
    AttrValue(Seq<char>),
    Text(Seq<char>),
    ExprStart,
    ExprEnd,
    Equal,
    Quote,
    OpenBrace,
    CloseBrace,
    OpenParen,
    CloseParen,
    Dot,
    Comma,
    Plus,
    Minus,
    Star,
    Slash,
    Identifier(Seq<char>),
    Number(Seq<char>),
    StringLiteral(Seq<char>),
    Eof,
    Error(Seq<char>),
}

impl View for Token {
    type V = TokenView;

    open spec fn view(&self) -> TokenView {
        match self {
            Token::OpenTag(s) => TokenView::OpenTag(s@),
            Token::CloseTag(s) => TokenView::CloseTag(s@),
            Token::SelfClosingTag(s) => TokenView::SelfClosingTag(s@),
            Token::AttrName(s) => TokenView::AttrName(s@),
            Token::AttrValue(s) => TokenView::AttrValue(s@),
            Token::Text(s) => TokenView::Text(s@),
            Token::ExprStart => TokenView::ExprStart,
            Token::ExprEnd => TokenView::ExprEnd,
            Token::Equal => TokenView::Equal,
            Token::Quote => TokenView::Quote,
            Token::OpenBrace => TokenView::OpenBrace,
            Token::CloseBrace => TokenView::CloseBrace,
            Token::OpenParen => TokenView::OpenParen,
            Token::CloseParen => TokenView::CloseParen,
            Token::Dot => TokenView::Dot,
            Token::Comma => TokenView::Comma,
            Token::Plus => TokenView::Plus,
            Token::Minus => TokenView::Minus,
            Token::Star => TokenView::Star,
            Token::Slash => TokenView::Slash,
            Token::Identifier(s) => TokenView::Identifier(s@),
            Token::Number(s) => TokenView::Number(s@),
            Token::StringLiteral(s) => TokenView::StringLiteral(s@),
            Token::Eof => TokenView::Eof,
            Token::Error(s) => TokenView::Error(s@),
        }
    }
}

/// The `Debug` text of a token: its variant's name, followed by its
/// quoted text in parentheses when it has one.
pub open spec fn token_debug(t: TokenView) -> Seq<char> {
    match t {
        TokenView::OpenTag(s) => "OpenTag("@ + debug_quoted(s) + ")"@,
        TokenView::CloseTag(s) => "CloseTag("@ + debug_quoted(s) + ")"@,
        TokenView::SelfClosingTag(s) => "SelfClosingTag("@ + debug_quoted(s) + ")"@,
        TokenView::AttrName(s) => "AttrName("@ + debug_quoted(s) + ")"@,
        TokenView::AttrValue(s) => "AttrValue("@ + debug_quoted(s) + ")"@,
        TokenView::Text(s) => "Text("@ + debug_quoted(s) + ")"@,
        TokenView::ExprStart => "ExprStart"@,
        TokenView::ExprEnd => "ExprEnd"@,
        TokenView::Equal => "Equal"@,
        TokenView::Quote => "Quote"@,
        TokenView::OpenBrace => "OpenBrace"@,
        TokenView::CloseBrace => "CloseBrace"@,
        TokenView::OpenParen => "OpenParen"@,
        TokenView::CloseParen => "CloseParen"@,
        TokenView::Dot => "Dot"@,
        TokenView::Comma => "Comma"@,
        TokenView::Plus => "Plus"@,
        TokenView::Minus => "Minus"@,
        TokenView::Star => "Star"@,
        TokenView::Slash => "Slash"@,
        TokenView::Identifier(s) => "Identifier("@ + debug_quoted(s) + ")"@,
        TokenView::Number(s) => "Number("@ + debug_quoted(s) + ")"@,
        TokenView::StringLiteral(s) => "String("@ + debug_quoted(s) + ")"@,
        TokenView::Eof => "Eof"@,
        TokenView::Error(s) => "Error("@ + debug_quoted(s) + ")"@,
    }
}

impl Token {
    /// The `Debug` text of the token.
    pub fn debug_text(&self) -> (r: String)
        ensures
            r@ == token_debug(self@),
    {
        let mut m = String::new();
        match self {
            Token::OpenTag(s) => { push_str(&mut m, "OpenTag("); push_str(&mut m, debug_str(s.as_str()).as_str()); push_str(&mut m, ")"); },
            Token::CloseTag(s) => { push_str(&mut m, "CloseTag("); push_str(&mut m, debug_str(s.as_str()).as_str()); push_str(&mut m, ")"); },
            Token::SelfClosingTag(s) => { push_str(&mut m, "SelfClosingTag("); push_str(&mut m, debug_str(s.as_str()).as_str()); push_str(&mut m, ")"); },
            Token::AttrName(s) => { push_str(&mut m, "AttrName("); push_str(&mut m, debug_str(s.as_str()).as_str()); push_str(&mut m, ")"); },
            Token::AttrValue(s) => { push_str(&mut m, "AttrValue("); push_str(&mut m, debug_str(s.as_str()).as_str()); push_str(&mut m, ")"); },
            Token::Text(s) => { push_str(&mut m, "Text("); push_str(&mut m, debug_str(s.as_str()).as_str()); push_str(&mut m, ")"); },
            Token::ExprStart => push_str(&mut m, "ExprStart"),
            Token::ExprEnd => push_str(&mut m, "ExprEnd"),
            Token::Equal => push_str(&mut m, "Equal"),
            Token::Quote => push_str(&mut m, "Quote"),
            Token::OpenBrace => push_str(&mut m, "OpenBrace"),
            Token::CloseBrace => push_str(&mut m, "CloseBrace"),
            Token::OpenParen => push_str(&mut m, "OpenParen"),
            Token::CloseParen => push_str(&mut m, "CloseParen"),
            Token::Dot => push_str(&mut m, "Dot"),
            Token::Comma => push_str(&mut m, "Comma"),
            Token::Plus => push_str(&mut m, "Plus"),
            Token::Minus => push_str(&mut m, "Minus"),
            Token::Star => push_str(&mut m, "Star"),
            Token::Slash => push_str(&mut m, "Slash"),
            Token::Identifier(s) => { push_str(&mut m, "Identifier("); push_str(&mut m, debug_str(s.as_str()).as_str()); push_str(&mut m, ")"); },
            Token::Number(s) => { push_str(&mut m, "Number("); push_str(&mut m, debug_str(s.as_str()).as_str()); push_str(&mut m, ")"); },
            Token::StringLiteral(s) => { push_str(&mut m, "String("); push_str(&mut m, debug_str(s.as_str()).as_str()); push_str(&mut m, ")"); },
            Token::Eof => push_str(&mut m, "Eof"),
            Token::Error(s) => { push_str(&mut m, "Error("); push_str(&mut m, debug_str(s.as_str()).as_str()); push_str(&mut m, ")"); },
        }
        m
    }
}

// ---------------------------------------------------------------------
// Scanning
// ---------------------------------------------------------------------

/// Classes of characters that a token runs over.
pub enum CharClass {
    /// Characters of an event name after `@`: alphanumeric or `-`.
    EventName,
    /// Characters of a word that may be an attribute name: alphanumeric,
    /// `_` or `-`.
    Word,
    /// Characters of an identifier: alphanumeric or `_`.
    Ident,
    /// Characters of a number: ASCII digits or `.`.
    Number,
    /// Anything but the given character.
    Not(char),
    /// Characters of text: anything but `<`, `{`, `@` and `=`.
    TextBody,
}

/// Whether `c` belongs to class `k`.
pub open spec fn in_class(c: char, k: CharClass) -> bool {
    match k {
        CharClass::EventName => letter_or_digit(c) || c == '-',
        CharClass::Word => letter_or_digit(c) || c == '_' || c == '-',
        CharClass::Ident => letter_or_digit(c) || c == '_',
        CharClass::Number => is_digit(c) || c == '.',
        CharClass::Not(q) => c != q,
        CharClass::TextBody => !(c == '<' || c == '{' || c == '@' || c == '='),
    }
}

/// The end of the run of class-`k` characters starting at `p`.
pub open spec fn class_end(s: Seq<char>, p: int, k: CharClass) -> int
    decreases s.len() - p,
{
    if p < 0 || p >= s.len() {
        p
    } else if in_class(s[p], k) {
        class_end(s, p + 1, k)
    } else {
        p
    }
}

/// The end of the run of whitespace starting at `p`.
pub open spec fn ws_end(s: Seq<char>, p: int) -> int
    decreases s.len() - p,
{
    if p < 0 || p >= s.len() {
        p
    } else if is_ws(s[p]) {
        ws_end(s, p + 1)
    } else {
        p
    }
}

/// A run ends within the input, after its start, at a character outside
/// the class (or at the end).
pub proof fn lemma_class_end(s: Seq<char>, p: int, k: CharClass)
    requires
        0 <= p <= s.len(),
    ensures
        p <= class_end(s, p, k) <= s.len(),
        class_end(s, p, k) < s.len() ==> !in_class(s[class_end(s, p, k)], k),
        forall|i: int| p <= i < class_end(s, p, k) ==> in_class(#[trigger] s[i], k),
    decreases s.len() - p,
{
    if p < s.len() && in_class(s[p], k) {
        lemma_class_end(s, p + 1, k);
    }
}

/// A whitespace run ends within the input, at a character that is not
/// whitespace (or at the end).
pub proof fn lemma_ws_end(s: Seq<char>, p: int)
    requires
        0 <= p <= s.len(),
    ensures
        p <= ws_end(s, p) <= s.len(),
        ws_end(s, p) < s.len() ==> !is_ws(s[ws_end(s, p)]),
    decreases s.len() - p,
{
    if p < s.len() && is_ws(s[p]) {
        lemma_ws_end(s, p + 1);
    }
}

/// Whether `c` belongs to class `k`.
fn char_in_class(c: char, k: &CharClass) -> (r: bool)
    ensures
        r == in_class(c, *k),
{
    match k {
        CharClass::EventName => is_alphanumeric(c) || c == '-',
        CharClass::Word => is_alphanumeric(c) || c == '_' || c == '-',
        CharClass::Ident => is_alphanumeric(c) || c == '_',
        CharClass::Number => ('0' <= c && c <= '9') || c == '.',
        CharClass::Not(q) => c != *q,
        CharClass::TextBody => !(c == '<' || c == '{' || c == '@' || c == '='),
    }
}

/// The end of the run of class-`k` characters starting at `p`.
fn scan_class(s: &Vec<char>, p: usize, k: CharClass) -> (r: usize)
    requires
        p <= s@.len(),
    ensures
        r == class_end(s@, p as int, k),
{
    let mut q = p;
    while q < s.len() && char_in_class(s[q], &k)
        invariant
            p <= q <= s@.len(),
            class_end(s@, p as int, k) == class_end(s@, q as int, k),
        decreases s@.len() - q,
    {
        q = q + 1;
    }
    q
}

/// The end of the run of whitespace starting at `p`.
fn scan_ws(s: &Vec<char>, p: usize) -> (r: usize)
    requires
        p <= s@.len(),
    ensures
        r == ws_end(s@, p as int),
{
    let mut q = p;
    while q < s.len() && is_whitespace(s[q])
        invariant
            p <= q <= s@.len(),
            ws_end(s@, p as int) == ws_end(s@, q as int),
        decreases s@.len() - q,
    {
        q = q + 1;
    }
    q
}


// ---------------------------------------------------------------------
// Tokens
// ---------------------------------------------------------------------

/// Reading the name of an opening tag from `q`, with `name` read so far:
/// `>` ends an opening tag, `/>` a self-closing one, whitespace ends the
/// name (attributes follow); a `/` not followed by `>` is dropped.
pub open spec fn open_tag_scan(s: Seq<char>, q: int, name: Seq<char>) -> (TokenView, int)
    decreases s.len() - q,
{
    if q < 0 || q >= s.len() {
        (TokenView::Error("Unclosed tag"@), q)
    } else if s[q] == '>' {
        (TokenView::OpenTag(name), q + 1)
    } else if s[q] == '/' {
        if q + 1 < s.len() && s[q + 1] == '>' {
            (TokenView::SelfClosingTag(name), q + 2)
        } else {
            open_tag_scan(s, q + 1, name)
        }
    } else if is_ws(s[q]) {
        (TokenView::OpenTag(name), q)
    } else {
        open_tag_scan(s, q + 1, name.push(s[q]))
    }
}

/// The tag starting with the `<` at `p`, and where reading stops.
pub open spec fn tag_at(s: Seq<char>, p: int) -> (TokenView, int) {
    let q = p + 1;
    if q < s.len() && s[q] == '/' {
        let e = class_end(s, q + 1, CharClass::Not('>'));
        if e < s.len() {
            (TokenView::CloseTag(s.subrange(q + 1, e)), e + 1)
        } else {
            (TokenView::Error("Unclosed tag"@), s.len() as int)
        }
    } else {
        open_tag_scan(s, q, Seq::empty())
    }
}

/// The string literal starting with the quote at `p`, and where reading
/// stops.
pub open spec fn string_at(s: Seq<char>, p: int) -> (TokenView, int) {
    let e = class_end(s, p + 1, CharClass::Not(s[p]));
    if e < s.len() {
        (TokenView::StringLiteral(s.subrange(p + 1, e)), e + 1)
    } else {
        (TokenView::Error("Unclosed string literal"@), s.len() as int)
    }
}

/// The next token at or after position `p`, and the position after it.
///
/// Whitespace is skipped first. Then, by the first character: `<` starts
/// a tag; `{{` and `}}` delimit expressions (single braces are braces);
/// `@` starts an event attribute name; quotes start string literals;
/// `= . , + - * / ( )` are tokens of their own; an ASCII digit starts a
/// number (digits and dots); a letter or `_` starts a word, which is an
/// attribute name when `=` follows it (after whitespace) and otherwise an
/// identifier; anything else starts text, which runs up to `<`, `{`, `@`
/// or `=` (a leading `>` is dropped). Text that is only whitespace and is
/// followed by `<` is skipped.
pub open spec fn token_at(s: Seq<char>, p: int) -> (TokenView, int)
    decreases s.len() - p,
{
    if p < 0 || p > s.len() {
        (TokenView::Eof, p)
    } else {
        proof {
            lemma_ws_end(s, p);
        }
        let p0 = ws_end(s, p);
        if p0 >= s.len() {
            (TokenView::Eof, p0)
        } else {
            let c = s[p0];
            if c == '<' {
                tag_at(s, p0)
            } else if c == '{' {
                if p0 + 1 < s.len() && s[p0 + 1] == '{' {
                    (TokenView::ExprStart, p0 + 2)
                } else {
                    (TokenView::OpenBrace, p0 + 1)
                }
            } else if c == '}' {
                if p0 + 1 < s.len() && s[p0 + 1] == '}' {
                    (TokenView::ExprEnd, p0 + 2)
                } else {
                    (TokenView::CloseBrace, p0 + 1)
                }
            } else if c == '@' {
                let e = class_end(s, p0 + 1, CharClass::EventName);
                (TokenView::AttrName(seq!['@'] + s.subrange(p0 + 1, e)), e)
            } else if c == '=' {
                (TokenView::Equal, p0 + 1)
            } else if c == '"' || c == '\'' {
                string_at(s, p0)
            } else if c == '.' {
                (TokenView::Dot, p0 + 1)
            } else if c == ',' {
                (TokenView::Comma, p0 + 1)
            } else if c == '+' {
                (TokenView::Plus, p0 + 1)
            } else if c == '-' {
                (TokenView::Minus, p0 + 1)
            } else if c == '*' {
                (TokenView::Star, p0 + 1)
            } else if c == '/' {
                (TokenView::Slash, p0 + 1)
            } else if c == '(' {
                (TokenView::OpenParen, p0 + 1)
            } else if c == ')' {
                (TokenView::CloseParen, p0 + 1)
            } else if is_digit(c) {
                let e = class_end(s, p0, CharClass::Number);
                (TokenView::Number(s.subrange(p0, e)), e)
            } else if letter(c) || c == '_' {
                let e = class_end(s, p0, CharClass::Word);
                let w = ws_end(s, e);
                if w < s.len() && s[w] == '=' {
                    (TokenView::AttrName(s.subrange(p0, e)), w)
                } else {
                    let e2 = class_end(s, p0, CharClass::Ident);
                    (TokenView::Identifier(s.subrange(p0, e2)), e2)
                }
            } else {
                proof {
                    lemma_class_end(s, p0 + 1, CharClass::TextBody);
                }
                let e = class_end(s, p0 + 1, CharClass::TextBody);
                let text = (if c != '>' { seq![c] } else { Seq::empty() }) + s.subrange(p0 + 1, e);
                if trim(text).len() == 0 && e < s.len() && s[e] == '<' {
                    token_at(s, e)
                } else {
                    (TokenView::Text(text), e)
                }
            }
        }
    }
}

/// Reading an opening tag stops within the input, after `q`.
pub proof fn lemma_open_tag_scan(s: Seq<char>, q: int, name: Seq<char>)
    requires
        0 <= q <= s.len(),
    ensures
        q <= open_tag_scan(s, q, name).1 <= s.len(),
    decreases s.len() - q,
{
    if q < s.len() && s[q] != '>' && !is_ws(s[q]) {
        if s[q] == '/' {
            if !(q + 1 < s.len() && s[q + 1] == '>') {
                lemma_open_tag_scan(s, q + 1, name);
            }
        } else {
            lemma_open_tag_scan(s, q + 1, name.push(s[q]));
        }
    }
}

/// Every token but the end of input consumes input; reading never goes
/// past the end.
pub proof fn lemma_token_progress(s: Seq<char>, p: int)
    requires
        0 <= p <= s.len(),
    ensures
        p <= token_at(s, p).1 <= s.len(),
        !(token_at(s, p).0 is Eof) ==> p < token_at(s, p).1,
    decreases s.len() - p,
{
    lemma_ws_end(s, p);
    let p0 = ws_end(s, p);
    if p0 < s.len() {
        let c = s[p0];
        if c == '<' {
            let q = p0 + 1;
            if q < s.len() && s[q] == '/' {
                lemma_class_end(s, q + 1, CharClass::Not('>'));
            } else {
                lemma_open_tag_scan(s, q, Seq::empty());
            }
        } else if c == '@' {
            lemma_class_end(s, p0 + 1, CharClass::EventName);
        } else if c == '"' || c == '\'' {
            lemma_class_end(s, p0 + 1, CharClass::Not(c));
        } else if is_digit(c) {
            lemma_class_end(s, p0, CharClass::Number);
        } else if letter(c) || c == '_' {
            lemma_class_end(s, p0, CharClass::Word);
            let e = class_end(s, p0, CharClass::Word);
            lemma_ws_end(s, e);
            lemma_class_end(s, p0, CharClass::Ident);
        } else if c != '{' && c != '}' && c != '=' && c != '.' && c != ',' && c != '+' && c != '-'
            && c != '*' && c != '/' && c != '(' && c != ')' {
            lemma_class_end(s, p0 + 1, CharClass::TextBody);
            let e = class_end(s, p0 + 1, CharClass::TextBody);
            let text = (if c != '>' { seq![c] } else { Seq::empty() }) + s.subrange(p0 + 1, e);
            if trim(text).len() == 0 && e < s.len() && s[e] == '<' {
                lemma_token_progress(s, e);
            }
        }
    }
}

/// Reads a template one token at a time.
pub struct Tokenizer {
    input: Vec<char>,
    pos: usize,
}

impl Tokenizer {
    /// The characters being read.
    pub closed spec fn text(&self) -> Seq<char> {
        self.input@
    }

    /// How many characters were read.
    pub closed spec fn position(&self) -> int {
        self.pos as int
    }

    /// The position never passes the end.
    pub open spec fn wf(&self) -> bool {
        0 <= self.position() <= self.text().len()
    }

    /// A tokenizer at the start of `input`.
    pub fn new(input: &str) -> (r: Self)
        ensures
            r.wf(),
            r.text() == input@,
            r.position() == 0,
    {
        Tokenizer { input: chars_of(input), pos: 0 }
    }

    /// Reads the tag whose `<` is at the current position.
    fn read_tag(&mut self) -> (t: Token)
        requires
            old(self).wf(),
            old(self).pos < old(self).input@.len(),
            old(self).input@[old(self).pos as int] == '<',
        ensures
            final(self).wf(),
            final(self).input == old(self).input,
            (t@, final(self).position()) == tag_at(old(self).text(), old(self).position()),
    {
        let len = self.input.len();
        let s = &self.input;
        let q = self.pos + 1;
        if q < s.len() && s[q] == '/' {
            let e = scan_class(s, q + 1, CharClass::Not('>'));
            proof {
                lemma_class_end(s@, q + 1, CharClass::Not('>'));
            }
            if e < s.len() {
                let name = slice_vec(s.as_slice(), q + 1, e);
                self.pos = e + 1;
                Token::CloseTag(string_from(name.as_slice()))
            } else {
                self.pos = s.len();
                Token::Error("Unclosed tag".to_owned())
            }
        } else {
            let mut name: Vec<char> = Vec::new();
            let mut i = q;
            while i < s.len()
                invariant
                    q <= i <= s@.len(),
                    s@ == self.input@,
                    self.input == old(self).input,
                    q == old(self).pos + 1,
                    tag_at(s@, old(self).pos as int) == open_tag_scan(s@, q as int, Seq::empty()),
                    open_tag_scan(s@, i as int, name@) == open_tag_scan(s@, q as int, Seq::empty()),
                decreases s@.len() - i,
            {
                let c = s[i];
                if c == '>' {
                    self.pos = i + 1;
                    return Token::OpenTag(string_from(name.as_slice()));
                } else if c == '/' {
                    if i + 1 < s.len() && s[i + 1] == '>' {
                        self.pos = i + 2;
                        return Token::SelfClosingTag(string_from(name.as_slice()));
                    }
                } else if is_whitespace(c) {
                    self.pos = i;
                    return Token::OpenTag(string_from(name.as_slice()));
                } else {
                    name.push(c);
                }
                i = i + 1;
            }
            self.pos = i;
            Token::Error("Unclosed tag".to_owned())
        }
    }

    /// Reads the next token.
    pub fn next_token(&mut self) -> (t: Token)
        requires
            old(self).wf(),
        ensures
            final(self).wf(),
            final(self).text() == old(self).text(),
            (t@, final(self).position()) == token_at(old(self).text(), old(self).position()),
        decreases old(self).text().len() - old(self).position(),
    {
        let p0 = scan_ws(&self.input, self.pos);
        proof {
            lemma_ws_end(self.input@, self.pos as int);
        }
        self.pos = p0;
        let len = self.input.len();
        if p0 >= len {
            return Token::Eof;
        }
        let c = self.input[p0];
        if c == '<' {
            self.read_tag()
        } else if c == '{' {
            if p0 + 1 < len && self.input[p0 + 1] == '{' {
                self.pos = p0 + 2;
                Token::ExprStart
            } else {
                self.pos = p0 + 1;
                Token::OpenBrace
            }
        } else if c == '}' {
            if p0 + 1 < len && self.input[p0 + 1] == '}' {
                self.pos = p0 + 2;
                Token::ExprEnd
            } else {
                self.pos = p0 + 1;
                Token::CloseBrace
            }
        } else if c == '@' {
            let e = scan_class(&self.input, p0 + 1, CharClass::EventName);
            proof {
                lemma_class_end(self.input@, p0 + 1, CharClass::EventName);
            }
            let mut name = String::new();
            push_char(&mut name, '@');
            let rest = slice_vec(self.input.as_slice(), p0 + 1, e);
            crate::text::push_chars(&mut name, rest.as_slice());
            self.pos = e;
            Token::AttrName(name)
        } else if c == '=' {
            self.pos = p0 + 1;
            Token::Equal
        } else if c == '"' || c == '\'' {
            let e = scan_class(&self.input, p0 + 1, CharClass::Not(c));
            proof {
                lemma_class_end(self.input@, p0 + 1, CharClass::Not(c));
            }
            if e < len {
                let value = slice_vec(self.input.as_slice(), p0 + 1, e);
                self.pos = e + 1;
                Token::StringLiteral(string_from(value.as_slice()))
            } else {
                self.pos = len;
                Token::Error("Unclosed string literal".to_owned())
            }
        } else if c == '.' {
            self.pos = p0 + 1;
            Token::Dot
        } else if c == ',' {
            self.pos = p0 + 1;
            Token::Comma
        } else if c == '+' {
            self.pos = p0 + 1;
            Token::Plus
        } else if c == '-' {
            self.pos = p0 + 1;
            Token::Minus
        } else if c == '*' {
            self.pos = p0 + 1;
            Token::Star
        } else if c == '/' {
            self.pos = p0 + 1;
            Token::Slash
        } else if c == '(' {
            self.pos = p0 + 1;
            Token::OpenParen
        } else if c == ')' {
            self.pos = p0 + 1;
            Token::CloseParen
        } else if '0' <= c && c <= '9' {
            let e = scan_class(&self.input, p0, CharClass::Number);
            proof {
                lemma_class_end(self.input@, p0 as int, CharClass::Number);
            }
            let digits = slice_vec(self.input.as_slice(), p0, e);
            self.pos = e;
            Token::Number(string_from(digits.as_slice()))
        } else if is_alphabetic(c) || c == '_' {
            let e = scan_class(&self.input, p0, CharClass::Word);
            proof {
                lemma_class_end(self.input@, p0 as int, CharClass::Word);
            }
            let w = scan_ws(&self.input, e);
            if w < len && self.input[w] == '=' {
                let word = slice_vec(self.input.as_slice(), p0, e);
                self.pos = w;
                Token::AttrName(string_from(word.as_slice()))
            } else {
                let e2 = scan_class(&self.input, p0, CharClass::Ident);
                proof {
                    lemma_class_end(self.input@, p0 as int, CharClass::Ident);
                }
                let ident = slice_vec(self.input.as_slice(), p0, e2);
                self.pos = e2;
                Token::Identifier(string_from(ident.as_slice()))
            }
        } else {
            let e = scan_class(&self.input, p0 + 1, CharClass::TextBody);
            proof {
                lemma_class_end(self.input@, p0 + 1, CharClass::TextBody);
            }
            let mut text: Vec<char> = Vec::new();
            if c != '>' {
                text.push(c);
            }
            let rest = slice_vec(self.input.as_slice(), p0 + 1, e);
            let ghost before = text@;
            text.append(&mut rest.clone());
            assert(text@ =~= before + self.input@.subrange(p0 + 1, e as int));
            self.pos = e;
            if trim_vec(text.as_slice()).len() == 0 && e < len && self.input[e] == '<' {
                self.next_token()
            } else {
                Token::Text(string_from(text.as_slice()))
            }
        }
    }
}

} // verus!
