use crate::text::chars_of;
use vstd::prelude::*;

verus! {

/// One token of the source text. A number is held as its binary64 pattern.
#[derive(Debug, PartialEq, Clone)]
pub enum Token {
    Number(u64),
    Identifier(String),
    Plus,
    Minus,
    Star,
    Slash,
    LParen,
    RParen,
    /// The assignment marker `=`.
    Equals,
    /// A character that belongs to no token. It is carried along so that the
    /// caller can report it; the grammar has no place for it, so the parser
    /// answers it with a fault.
    Unknown(char),
}

/// What a token is, with the name of an identifier as its characters.
pub enum Lexeme {
    Number(u64),
    Identifier(Seq<char>),
    Plus,
    Minus,
    Star,
    Slash,
    LParen,
    RParen,
    Equals,
    Unknown(char),
}

impl View for Token {
    type V = Lexeme;

    open spec fn view(&self) -> Lexeme {
        match self {
            Token::Number(bits) => Lexeme::Number(*bits),
            Token::Identifier(name) => Lexeme::Identifier(name@),
            Token::Plus => Lexeme::Plus,
            Token::Minus => Lexeme::Minus,
            Token::Star => Lexeme::Star,
            Token::Slash => Lexeme::Slash,
            Token::LParen => Lexeme::LParen,
            Token::RParen => Lexeme::RParen,
            Token::Equals => Lexeme::Equals,
            Token::Unknown(c) => Lexeme::Unknown(*c),
        }
    }
}

/// The tokens of a sequence, each as what it is.
pub open spec fn lexemes(tokens: Seq<Token>) -> Seq<Lexeme> {
    tokens.map_values(|t: Token| t@)
}

/// Why a text has no tokens.
#[derive(Debug, PartialEq, Eq, Clone, Copy, Structural)]
pub enum TokenizeFault {
    /// The run of digits and points that starts at character `at` is no
    /// decimal literal.
    MalformedNumber { at: usize },
}

impl TokenizeFault {
    /// The fault in words.
    pub fn message(&self) -> (text: String)
        ensures
            text@ == "Invalid number"@,
    {
        "Invalid number".to_owned()
    }
}

/// An ASCII digit.
pub open spec fn is_digit(c: char) -> bool {
    '0' <= c && c <= '9'
}

/// A character of a number: a digit or the decimal point.
pub open spec fn is_number_char(c: char) -> bool {
    is_digit(c) || c == '.'
}

/// A character that may open an identifier: an ASCII letter or `_`.
pub open spec fn is_name_start(c: char) -> bool {
    ('a' <= c && c <= 'z') || ('A' <= c && c <= 'Z') || c == '_'
}

/// A character that may continue an identifier.
pub open spec fn is_name_char(c: char) -> bool {
    is_name_start(c) || is_digit(c)
}

/// White space, as Unicode defines it.
pub open spec fn is_space(c: char) -> bool {
    let p = c as u32;
    ||| 0x09 <= p <= 0x0d
    ||| p == 0x20
    ||| p == 0x85
    ||| p == 0xa0
    ||| p == 0x1680
    ||| 0x2000 <= p <= 0x200a
    ||| p == 0x2028
    ||| p == 0x2029
    ||| p == 0x202f
    ||| p == 0x205f
    ||| p == 0x3000
}

/// Where the run of number characters that starts at `from` ends.
pub open spec fn number_end(s: Seq<char>, from: int) -> int
    decreases s.len() - from,
{
    if 0 <= from < s.len() && is_number_char(s[from]) {
        number_end(s, from + 1)
    } else {
        from
    }
}

/// Where the run of identifier characters that starts at `from` ends.
pub open spec fn name_end(s: Seq<char>, from: int) -> int
    decreases s.len() - from,
{
    if 0 <= from < s.len() && is_name_char(s[from]) {
        name_end(s, from + 1)
    } else {
        from
    }
}

/// The token that a character makes by itself.
pub open spec fn single(c: char) -> Lexeme {
    if c == '+' {
        Lexeme::Plus
    } else if c == '-' {
        Lexeme::Minus
    } else if c == '*' {
        Lexeme::Star
    } else if c == '/' {
        Lexeme::Slash
    } else if c == '(' {
        Lexeme::LParen
    } else if c == ')' {
        Lexeme::RParen
    } else if c == '=' {
        Lexeme::Equals
    } else {
        Lexeme::Unknown(c)
    }
}

/// The binary64 pattern nearest to the decimal literal `text`, or `None`
/// where `text` is no literal.
pub uninterp spec fn decimal_value(text: Seq<char>) -> Option<u64>;

/// A run of digits and points is a literal when it holds a digit and at most
/// one point.
pub open spec fn well_formed_literal(text: Seq<char>) -> bool {
    &&& exists|i: int| 0 <= i < text.len() && is_digit(#[trigger] text[i])
    &&& forall|i: int, j: int|
        0 <= i < j < text.len() ==> !(#[trigger] text[i] == '.' && #[trigger] text[j] == '.')
}

/// `done`, followed by what the rest of the text gives.
pub open spec fn followed_by(done: Seq<Lexeme>, rest: Result<Seq<Lexeme>, TokenizeFault>) -> Result<
    Seq<Lexeme>,
    TokenizeFault,
> {
    match rest {
        Ok(more) => Ok(done + more),
        Err(fault) => Err(fault),
    }
}

/// The tokens of `s` from character `from` on. At each place the longest
/// token is taken: a run of digits and points is one number, a run that a
/// letter or `_` opens is one identifier, white space gives nothing, and any
/// other character is a token by itself.
pub open spec fn lex_from(s: Seq<char>, from: int) -> Result<Seq<Lexeme>, TokenizeFault>
    decreases s.len() - from,
{
    if from < 0 || from >= s.len() {
        Ok(Seq::empty())
    } else if is_number_char(s[from]) {
        let end = number_end(s, from);
        proof {
            lemma_number_end_bounds(s, from + 1);
        }
        match decimal_value(s.subrange(from, end)) {
            Some(bits) => followed_by(seq![Lexeme::Number(bits)], lex_from(s, end)),
            None => Err(TokenizeFault::MalformedNumber { at: from as usize }),
        }
    } else if is_name_start(s[from]) {
        let end = name_end(s, from);
        proof {
            lemma_name_end_bounds(s, from + 1);
        }
        followed_by(seq![Lexeme::Identifier(s.subrange(from, end))], lex_from(s, end))
    } else if is_space(s[from]) {
        lex_from(s, from + 1)
    } else {
        followed_by(seq![single(s[from])], lex_from(s, from + 1))
    }
}

/// The tokens of the whole text.
pub open spec fn lex(s: Seq<char>) -> Result<Seq<Lexeme>, TokenizeFault> {
    lex_from(s, 0)
}

/// Where the first run of digits and points starts that is no literal, among
/// the tokens of `s` from character `from` on; `None` where every such run is
/// a literal.
pub open spec fn first_malformed(s: Seq<char>, from: int) -> Option<int>
    decreases s.len() - from,
{
    if from < 0 || from >= s.len() {
        None
    } else if is_number_char(s[from]) {
        let end = number_end(s, from);
        proof {
            lemma_number_end_bounds(s, from + 1);
        }
        if well_formed_literal(s.subrange(from, end)) {
            first_malformed(s, end)
        } else {
            Some(from)
        }
    } else if is_name_start(s[from]) {
        proof {
            lemma_name_end_bounds(s, from + 1);
        }
        first_malformed(s, name_end(s, from))
    } else {
        first_malformed(s, from + 1)
    }
}

/// A run never ends before it starts, nor after the text.
pub proof fn lemma_number_end_bounds(s: Seq<char>, from: int)
    requires
        0 <= from <= s.len(),
    ensures
        from <= number_end(s, from) <= s.len(),
    decreases s.len() - from,
{
    if from < s.len() && is_number_char(s[from]) {
        lemma_number_end_bounds(s, from + 1);
    }
}

/// A run never ends before it starts, nor after the text.
pub proof fn lemma_name_end_bounds(s: Seq<char>, from: int)
    requires
        0 <= from <= s.len(),
    ensures
        from <= name_end(s, from) <= s.len(),
    decreases s.len() - from,
{
    if from < s.len() && is_name_char(s[from]) {
        lemma_name_end_bounds(s, from + 1);
    }
}

/// `String::push` of the standard library appends one character.
pub assume_specification[ String::push ](s: &mut String, c: char)
    ensures
        final(s)@ == old(s)@.push(c),
;

/// Reads `text` as a decimal literal by the standard library's `parse` for
/// binary64 and returns the pattern of the value, read off a lane of
/// `wide::f64x4::splat`. Of a text of digits and points alone it says when
/// there is a value: when the text holds a digit and at most one point.
#[verifier::external_body]
fn decimal_bits(text: &str) -> (r: Option<u64>)
    ensures
        r == decimal_value(text@),
        (forall|i: int| 0 <= i < text@.len() ==> is_number_char(#[trigger] text@[i])) ==> (r is Some
            <==> well_formed_literal(text@)),
{
    match text.parse() {
        Ok(value) => {
            let lanes: [u64; 4] = bytemuck::cast(wide::f64x4::splat(value));
            Some(lanes[0])
        },
        Err(_) => None,
    }
}

/// Whether `c` is an ASCII digit.
pub fn is_digit_char(c: char) -> (r: bool)
    ensures
        r == is_digit(c),
{
    '0' <= c && c <= '9'
}

/// Whether `c` may open an identifier.
pub fn is_name_start_char(c: char) -> (r: bool)
    ensures
        r == is_name_start(c),
{
    ('a' <= c && c <= 'z') || ('A' <= c && c <= 'Z') || c == '_'
}

/// Whether `c` is white space.
pub fn is_space_char(c: char) -> (r: bool)
    ensures
        r == is_space(c),
{
    let p: u32 = c as u32;
    (0x09 <= p && p <= 0x0d) || p == 0x20 || p == 0x85 || p == 0xa0 || p == 0x1680 || (0x2000 <= p
        && p <= 0x200a) || p == 0x2028 || p == 0x2029 || p == 0x202f || p == 0x205f || p == 0x3000
}

/// Reads the run of digits and points at `*pos` and moves `*pos` behind it.
/// Returns the pattern of the literal, or `None` where the run is none.
pub fn parse_number(chars: &Vec<char>, pos: &mut usize) -> (r: Option<u64>)
    requires
        *old(pos) <= chars.len(),
    ensures
        *final(pos) == number_end(chars@, *old(pos) as int),
        r == decimal_value(chars@.subrange(*old(pos) as int, *final(pos) as int)),
        r is Some <==> well_formed_literal(chars@.subrange(*old(pos) as int, *final(pos) as int)),
{
    let start: usize = *pos;
    let mut text = String::new();
    while *pos < chars.len() && (is_digit_char(chars[*pos]) || chars[*pos] == '.')
        invariant
            start <= *pos <= chars.len(),
            number_end(chars@, start as int) == number_end(chars@, *pos as int),
            text@ == chars@.subrange(start as int, *pos as int),
            forall|i: int| 0 <= i < text@.len() ==> is_number_char(#[trigger] text@[i]),
        decreases chars.len() - *pos,
    {
        text.push(chars[*pos]);
        assert(chars@.subrange(start as int, *pos + 1) == chars@.subrange(
            start as int,
            *pos as int,
        ).push(chars@[*pos as int]));
        *pos += 1;
    }
    decimal_bits(text.as_str())
}

/// Reads the run of letters, digits and `_` at `*pos` and moves `*pos` behind
/// it. Returns the run, or `None` where it is empty.
pub fn parse_variable(chars: &Vec<char>, pos: &mut usize) -> (r: Option<String>)
    requires
        *old(pos) <= chars.len(),
    ensures
        *final(pos) == name_end(chars@, *old(pos) as int),
        match r {
            Some(name) => *old(pos) < *final(pos) && name@ == chars@.subrange(
                *old(pos) as int,
                *final(pos) as int,
            ),
            None => *final(pos) == *old(pos),
        },
{
    let start: usize = *pos;
    let mut name = String::new();
    while *pos < chars.len() && (is_name_start_char(chars[*pos]) || is_digit_char(chars[*pos]))
        invariant
            start <= *pos <= chars.len(),
            name_end(chars@, start as int) == name_end(chars@, *pos as int),
            name@ == chars@.subrange(start as int, *pos as int),
        decreases chars.len() - *pos,
    {
        name.push(chars[*pos]);
        assert(chars@.subrange(start as int, *pos + 1) == chars@.subrange(
            start as int,
            *pos as int,
        ).push(chars@[*pos as int]));
        *pos += 1;
    }
    if *pos == start {
        None
    } else {
        Some(name)
    }
}

/// Appending a token to what is done is the same as putting it before the
/// rest.
proof fn lemma_followed_by_push(
    done: Seq<Lexeme>,
    next: Lexeme,
    rest: Result<Seq<Lexeme>, TokenizeFault>,
)
    ensures
        followed_by(done, followed_by(seq![next], rest)) == followed_by(done.push(next), rest),
{
    if let Ok(more) = rest {
        assert(done + (seq![next] + more) =~= done.push(next) + more);
    }
}

/// The token that the character `c` makes by itself.
pub fn single_token(c: char) -> (token: Token)
    ensures
        token@ == single(c),
{
    if c == '+' {
        Token::Plus
    } else if c == '-' {
        Token::Minus
    } else if c == '*' {
        Token::Star
    } else if c == '/' {
        Token::Slash
    } else if c == '(' {
        Token::LParen
    } else if c == ')' {
        Token::RParen
    } else if c == '=' {
        Token::Equals
    } else {
        Token::Unknown(c)
    }
}

/// Whether two tokens are the same token.
pub fn same_token(a: &Token, b: &Token) -> (same: bool)
    ensures
        same == (a@ == b@),
{
    match (a, b) {
        (Token::Number(x), Token::Number(y)) => *x == *y,
        (Token::Identifier(x), Token::Identifier(y)) => *x == *y,
        (Token::Plus, Token::Plus) => true,
        (Token::Minus, Token::Minus) => true,
        (Token::Star, Token::Star) => true,
        (Token::Slash, Token::Slash) => true,
        (Token::LParen, Token::LParen) => true,
        (Token::RParen, Token::RParen) => true,
        (Token::Equals, Token::Equals) => true,
        (Token::Unknown(x), Token::Unknown(y)) => *x == *y,
        _ => false,
    }
}

/// Turns a text into its tokens, in the order of the text. It fails on the
/// first run of digits and points that is no decimal literal, and on nothing
/// else.
pub fn tokenize(input: &str) -> (r: Result<Vec<Token>, TokenizeFault>)
    ensures
        match r {
            Ok(tokens) => lex(input@) == Ok::<Seq<Lexeme>, TokenizeFault>(lexemes(tokens@)),
            Err(fault) => lex(input@) == Err::<Seq<Lexeme>, TokenizeFault>(fault),
        },
        match first_malformed(input@, 0) {
            Some(at) => r == Err::<Vec<Token>, TokenizeFault>(
                TokenizeFault::MalformedNumber { at: at as usize },
            ),
            None => r is Ok,
        },
{
    let chars = chars_of(input);
    let mut tokens: Vec<Token> = Vec::new();
    let mut pos: usize = 0;
    assert(lexemes(tokens@) =~= Seq::<Lexeme>::empty());
    assert(followed_by(Seq::<Lexeme>::empty(), lex_from(chars@, 0)) == lex_from(chars@, 0)) by {
        if let Ok(more) = lex_from(chars@, 0) {
            assert(Seq::<Lexeme>::empty() + more =~= more);
        }
    }
    while pos < chars.len()
        invariant
            pos <= chars.len(),
            chars@ == input@,
            lex(chars@) == followed_by(lexemes(tokens@), lex_from(chars@, pos as int)),
            first_malformed(chars@, 0) == first_malformed(chars@, pos as int),
        decreases chars.len() - pos,
    {
        let c = chars[pos];
        let start: usize = pos;
        let ghost done = lexemes(tokens@);
        let token = if is_digit_char(c) || c == '.' {
            proof {
                lemma_number_end_bounds(chars@, start + 1);
            }
            match parse_number(&chars, &mut pos) {
                Some(bits) => Token::Number(bits),
                None => {
                    return Err(TokenizeFault::MalformedNumber { at: start });
                },
            }
        } else if is_name_start_char(c) {
            proof {
                lemma_name_end_bounds(chars@, start + 1);
            }
            match parse_variable(&chars, &mut pos) {
                Some(name) => Token::Identifier(name),
                None => {
                    continue ;
                },
            }
        } else if is_space_char(c) {
            pos += 1;
            continue ;
        } else {
            pos += 1;
            single_token(c)
        };
        proof {
            lemma_followed_by_push(done, token@, lex_from(chars@, pos as int));
            assert(lexemes(tokens@.push(token)) =~= done.push(token@));
        }
        tokens.push(token);
    }
    Ok(tokens)
}

} // verus!
