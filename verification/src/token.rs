use vstd::prelude::*;

use crate::chars::{alphanumeric, documented_class, is_alphanumeric, is_whitespace, whitespace};

verus! {

/// A lexical token of an interface description.
#[derive(Debug, Clone, PartialEq, Hash, Eq)]
pub enum Token {
    Whitespace,
    Class,
    Message,
    Word(String),
    CurlyOpen,
    CurlyClose,
    Comma,
    Dot,
    Slash,
    ParenOpen,
    GenericOpen,
    GenericClose,
    Arrow,
    Async,
    ParenClose,
    Semicolon,
    Colon,
    EqSign,
    Enum,
}

/// The mathematical value of a [`Token`]: a word is its sequence of characters.
pub enum SpecToken {
    Whitespace,
    Class,
    Message,
    Word(Seq<char>),
    CurlyOpen,
    CurlyClose,
    Comma,
    Dot,
    Slash,
    ParenOpen,
    GenericOpen,
    GenericClose,
    Arrow,
    Async,
    ParenClose,
    Semicolon,
    Colon,
    EqSign,
    Enum,
}

impl View for Token {
    type V = SpecToken;

    open spec fn view(&self) -> SpecToken {
        match self {
            Token::Whitespace => SpecToken::Whitespace,
            Token::Class => SpecToken::Class,
            Token::Message => SpecToken::Message,
            Token::Word(w) => SpecToken::Word(w@),
            Token::CurlyOpen => SpecToken::CurlyOpen,
            Token::CurlyClose => SpecToken::CurlyClose,
            Token::Comma => SpecToken::Comma,
            Token::Dot => SpecToken::Dot,
            Token::Slash => SpecToken::Slash,
            Token::ParenOpen => SpecToken::ParenOpen,
            Token::GenericOpen => SpecToken::GenericOpen,
            Token::GenericClose => SpecToken::GenericClose,
            Token::Arrow => SpecToken::Arrow,
            Token::Async => SpecToken::Async,
            Token::ParenClose => SpecToken::ParenClose,
            Token::Semicolon => SpecToken::Semicolon,
            Token::Colon => SpecToken::Colon,
            Token::EqSign => SpecToken::EqSign,
            Token::Enum => SpecToken::Enum,
        }
    }
}

/// The text of a token as the interface format writes it.
pub open spec fn spec_display(t: SpecToken) -> Seq<char> {
    match t {
        SpecToken::Whitespace => " "@,
        SpecToken::Class => "class"@,
        SpecToken::Message => "message"@,
        SpecToken::Word(w) => w,
        SpecToken::CurlyOpen => "{"@,
        SpecToken::CurlyClose => "}"@,
        SpecToken::Comma => ","@,
        SpecToken::Dot => "."@,
        SpecToken::Slash => "/"@,
        SpecToken::ParenOpen => "("@,
        SpecToken::GenericOpen => "<"@,
        SpecToken::GenericClose => ">"@,
        SpecToken::Arrow => "->"@,
        SpecToken::Async => "async"@,
        SpecToken::ParenClose => ")"@,
        SpecToken::Semicolon => ";\n"@,
        SpecToken::Colon => ":"@,
        SpecToken::EqSign => "="@,
        SpecToken::Enum => "enum"@,
    }
}

impl Token {
    /// The text of the token: its word, its keyword or its symbol; a
    /// semicolon is followed by a line break.
    pub fn to_string(&self) -> (s: String)
        ensures
            s@ == spec_display(self@),
    {
        match self {
            Token::Whitespace => String::from_str(" "),
            Token::Class => String::from_str("class"),
            Token::Message => String::from_str("message"),
            Token::Word(word) => word.clone(),
            Token::CurlyOpen => String::from_str("{"),
            Token::CurlyClose => String::from_str("}"),
            Token::Comma => String::from_str(","),
            Token::Dot => String::from_str("."),
            Token::Slash => String::from_str("/"),
            Token::ParenOpen => String::from_str("("),
            Token::GenericOpen => String::from_str("<"),
            Token::GenericClose => String::from_str(">"),
            Token::Arrow => String::from_str("->"),
            Token::Async => String::from_str("async"),
            Token::ParenClose => String::from_str(")"),
            Token::Semicolon => String::from_str(";\n"),
            Token::Colon => String::from_str(":"),
            Token::EqSign => String::from_str("="),
            Token::Enum => String::from_str("enum"),
        }
    }
}

/// The values of a sequence of tokens.
pub open spec fn tokens_view(ts: Seq<Token>) -> Seq<SpecToken> {
    ts.map_values(|t: Token| t@)
}

/// The error type of [`tokenize`]; [`tokenize`] never returns it.
#[derive(Debug)]
pub struct TokenizeError;

/// Characters that may make up a word.
pub open spec fn word_char(c: char) -> bool {
    alphanumeric(c) || c == '-' || c == '_'
}

/// The token that a single-character delimiter stands for (`>` is handled apart).
pub open spec fn delimiter(c: char) -> Option<SpecToken> {
    if c == '(' {
        Some(SpecToken::ParenOpen)
    } else if c == '=' {
        Some(SpecToken::EqSign)
    } else if c == '/' {
        Some(SpecToken::Slash)
    } else if c == '.' {
        Some(SpecToken::Dot)
    } else if c == ':' {
        Some(SpecToken::Colon)
    } else if c == ')' {
        Some(SpecToken::ParenClose)
    } else if c == '{' {
        Some(SpecToken::CurlyOpen)
    } else if c == '}' {
        Some(SpecToken::CurlyClose)
    } else if c == ';' {
        Some(SpecToken::Semicolon)
    } else if c == ',' {
        Some(SpecToken::Comma)
    } else if c == '<' {
        Some(SpecToken::GenericOpen)
    } else {
        None
    }
}

/// The keyword token that a buffered word spells, if any.
pub open spec fn keyword(w: Seq<char>) -> Option<SpecToken> {
    if w == seq!['c', 'l', 'a', 's', 's'] {
        Some(SpecToken::Class)
    } else if w == seq!['m', 'e', 's', 's', 'a', 'g', 'e'] {
        Some(SpecToken::Message)
    } else if w == seq!['a', 's', 'y', 'n', 'c'] {
        Some(SpecToken::Async)
    } else if w == seq!['e', 'n', 'u', 'm'] {
        Some(SpecToken::Enum)
    } else {
        None
    }
}

/// The state of the tokenizer between two characters: the tokens emitted so
/// far and the word being collected.
pub struct ScanState {
    pub tokens: Seq<SpecToken>,
    pub word: Seq<char>,
}

/// Emits the collected word, if there is one.
pub open spec fn flush(tokens: Seq<SpecToken>, word: Seq<char>) -> Seq<SpecToken> {
    if word.len() == 0 {
        tokens
    } else {
        tokens.push(SpecToken::Word(word))
    }
}

/// Whether the last token emitted is a whitespace token.
pub open spec fn ends_with_whitespace(tokens: Seq<SpecToken>) -> bool {
    tokens.len() > 0 && tokens.last() is Whitespace
}

/// The keyword step that precedes the handling of each character: a buffered
/// keyword followed by a non-alphanumeric character becomes its token.
pub open spec fn close_keyword(s: ScanState, c: char) -> ScanState {
    if !alphanumeric(c) && keyword(s.word) is Some {
        ScanState { tokens: s.tokens.push(keyword(s.word)->0), word: seq![] }
    } else {
        s
    }
}

/// What the tokenizer does with one character.
pub open spec fn scan_char(s0: ScanState, c: char) -> ScanState {
    let s = close_keyword(s0, c);
    if delimiter(c) is Some {
        ScanState { tokens: flush(s.tokens, s.word).push(delimiter(c)->0), word: seq![] }
    } else if c == '>' {
        if s.word.len() == 0 {
            s
        } else if s.word.last() == '-' {
            ScanState {
                tokens: flush(s.tokens, s.word.drop_last()).push(SpecToken::Arrow),
                word: seq![],
            }
        } else {
            ScanState {
                tokens: s.tokens.push(SpecToken::Word(s.word)).push(SpecToken::GenericClose),
                word: seq![],
            }
        }
    } else {
        let t = if whitespace(c) {
            ScanState {
                tokens: if ends_with_whitespace(s.tokens) {
                    flush(s.tokens, s.word)
                } else {
                    flush(s.tokens, s.word).push(SpecToken::Whitespace)
                },
                word: seq![],
            }
        } else {
            s
        };
        if word_char(c) {
            ScanState { tokens: t.tokens, word: t.word.push(c) }
        } else {
            t
        }
    }
}

/// Runs the tokenizer from state `s` over `input`.
pub open spec fn scan(s: ScanState, input: Seq<char>) -> ScanState
    decreases input.len(),
{
    if input.len() == 0 {
        s
    } else {
        scan(scan_char(s, input[0]), input.drop_first())
    }
}

/// The tokens of `input`. A word still being collected when the input ends
/// is not emitted.
pub open spec fn spec_tokenize(input: Seq<char>) -> Seq<SpecToken> {
    scan(ScanState { tokens: seq![], word: seq![] }, input).tokens
}

/// Builds the string of a collected word by collecting the characters into a
/// `String` (`FromIterator<&char>` for `String`); the contract claims that the
/// string holds exactly those characters, in order.
#[verifier::external_body]
fn string_from_chars(w: &Vec<char>) -> (s: String)
    ensures
        s@ == w@,
{
    w.iter().collect()
}

fn push_token(res: &mut Vec<Token>, t: Token)
    ensures
        tokens_view(final(res)@) == tokens_view(old(res)@).push(t@),
{
    res.push(t);
    assert(tokens_view(res@) =~= tokens_view(old(res)@).push(t@));
}

/// Emits the collected word, if there is one, and empties the buffer.
fn flush_word(res: &mut Vec<Token>, word: &mut Vec<char>)
    ensures
        tokens_view(final(res)@) == flush(tokens_view(old(res)@), old(word)@),
        final(word)@ == Seq::<char>::empty(),
{
    if word.len() > 0 {
        let s = string_from_chars(word);
        push_token(res, Token::Word(s));
        *word = Vec::new();
    }
}

fn delimiter_token(c: char) -> (r: Option<Token>)
    ensures
        match r {
            Some(t) => delimiter(c) == Some(t@),
            None => delimiter(c) is None,
        },
{
    if c == '(' {
        Some(Token::ParenOpen)
    } else if c == '=' {
        Some(Token::EqSign)
    } else if c == '/' {
        Some(Token::Slash)
    } else if c == '.' {
        Some(Token::Dot)
    } else if c == ':' {
        Some(Token::Colon)
    } else if c == ')' {
        Some(Token::ParenClose)
    } else if c == '{' {
        Some(Token::CurlyOpen)
    } else if c == '}' {
        Some(Token::CurlyClose)
    } else if c == ';' {
        Some(Token::Semicolon)
    } else if c == ',' {
        Some(Token::Comma)
    } else if c == '<' {
        Some(Token::GenericOpen)
    } else {
        None
    }
}

fn keyword_token(w: &Vec<char>) -> (r: Option<Token>)
    ensures
        match r {
            Some(t) => keyword(w@) == Some(t@),
            None => keyword(w@) is None,
        },
{
    let n = w.len();
    if n == 5 && w[0] == 'c' && w[1] == 'l' && w[2] == 'a' && w[3] == 's' && w[4] == 's' {
        assert(w@ =~= seq!['c', 'l', 'a', 's', 's']);
        Some(Token::Class)
    } else if n == 7 && w[0] == 'm' && w[1] == 'e' && w[2] == 's' && w[3] == 's' && w[4] == 'a'
        && w[5] == 'g' && w[6] == 'e' {
        assert(w@ =~= seq!['m', 'e', 's', 's', 'a', 'g', 'e']);
        Some(Token::Message)
    } else if n == 5 && w[0] == 'a' && w[1] == 's' && w[2] == 'y' && w[3] == 'n' && w[4] == 'c' {
        assert(w@ =~= seq!['a', 's', 'y', 'n', 'c']);
        Some(Token::Async)
    } else if n == 4 && w[0] == 'e' && w[1] == 'n' && w[2] == 'u' && w[3] == 'm' {
        assert(w@ =~= seq!['e', 'n', 'u', 'm']);
        Some(Token::Enum)
    } else {
        assert(w@ != seq!['c', 'l', 'a', 's', 's']) by {
            if w@ == seq!['c', 'l', 'a', 's', 's'] {
                assert(w@[0] == 'c' && w@[1] == 'l' && w@[2] == 'a' && w@[3] == 's' && w@[4] == 's');
            }
        }
        assert(w@ != seq!['m', 'e', 's', 's', 'a', 'g', 'e']) by {
            if w@ == seq!['m', 'e', 's', 's', 'a', 'g', 'e'] {
                assert(w@[0] == 'm' && w@[1] == 'e' && w@[2] == 's' && w@[3] == 's' && w@[4] == 'a'
                    && w@[5] == 'g' && w@[6] == 'e');
            }
        }
        assert(w@ != seq!['a', 's', 'y', 'n', 'c']) by {
            if w@ == seq!['a', 's', 'y', 'n', 'c'] {
                assert(w@[0] == 'a' && w@[1] == 's' && w@[2] == 'y' && w@[3] == 'n' && w@[4] == 'c');
            }
        }
        assert(w@ != seq!['e', 'n', 'u', 'm']) by {
            if w@ == seq!['e', 'n', 'u', 'm'] {
                assert(w@[0] == 'e' && w@[1] == 'n' && w@[2] == 'u' && w@[3] == 'm');
            }
        }
        None
    }
}

fn last_is_whitespace(res: &Vec<Token>) -> (r: bool)
    ensures
        r == ends_with_whitespace(tokens_view(res@)),
{
    let n = res.len();
    if n == 0 {
        false
    } else {
        match &res[n - 1] {
            Token::Whitespace => true,
            _ => false,
        }
    }
}

/// Splits an interface description into tokens.
///
/// Runs of whitespace give one whitespace token, words are made of
/// alphanumeric characters, `-` and `_`, and `class`, `message`, `async`
/// and `enum` followed by a non-alphanumeric character are keywords.
pub fn tokenize(input: &str) -> (r: Result<Vec<Token>, TokenizeError>)
    ensures
        r matches Ok(ts) && tokens_view(ts@) == spec_tokenize(input@),
        forall|i: int| 0 <= i < input@.len() ==> documented_class(#[trigger] input@[i]),
{
    broadcast use vstd::string::group_string_axioms;

    let mut res: Vec<Token> = Vec::new();
    let mut word: Vec<char> = Vec::new();
    let ghost init = ScanState { tokens: seq![], word: seq![] };
    assert(tokens_view(res@) =~= seq![]);
    assert(input@.skip(0) =~= input@);
    for c in it: input.chars()
        invariant
            it.seq() == input@,
            scan(init, input@) == scan(
                ScanState { tokens: tokens_view(res@), word: word@ },
                input@.skip(it.index()),
            ),
            forall|j: int| 0 <= j < it.index() ==> documented_class(#[trigger] input@[j]),
    {
        let ghost before = ScanState { tokens: tokens_view(res@), word: word@ };
        assert(input@.skip(it.index())[0] == c);
        assert(input@.skip(it.index()).drop_first() =~= input@.skip(it.index() + 1));
        let alnum = is_alphanumeric(c);
        assert(documented_class(c));
        if !alnum {
            match keyword_token(&word) {
                Some(k) => {
                    push_token(&mut res, k);
                    word = Vec::new();
                },
                None => {},
            }
        }
        let ghost mid = ScanState { tokens: tokens_view(res@), word: word@ };
        assert(mid == close_keyword(before, c));
        match delimiter_token(c) {
            Some(d) => {
                flush_word(&mut res, &mut word);
                push_token(&mut res, d);
            },
            None => {
                if c == '>' {
                    let last = word.pop();
                    match last {
                        Some(h) => {
                            if h == '-' {
                                assert(word@ =~= mid.word.drop_last());
                                flush_word(&mut res, &mut word);
                                push_token(&mut res, Token::Arrow);
                            } else {
                                word.push(h);
                                assert(word@ =~= mid.word);
                                let s = string_from_chars(&word);
                                push_token(&mut res, Token::Word(s));
                                word = Vec::new();
                                push_token(&mut res, Token::GenericClose);
                            }
                        },
                        None => {},
                    }
                } else {
                    let last_ws = last_is_whitespace(&res);
                    if is_whitespace(c) {
                        flush_word(&mut res, &mut word);
                        if !last_ws {
                            push_token(&mut res, Token::Whitespace);
                        }
                    }
                    if alnum || c == '-' || c == '_' {
                        word.push(c);
                    }
                }
            },
        }
        assert(ScanState { tokens: tokens_view(res@), word: word@ } == scan_char(before, c));
    }
    assert(input@.skip(input@.len() as int) =~= seq![]);
    Ok(res)
}

} // verus!
