//! The lexer: from the characters of a source text to its tokens.

use crate::text::same_text;
use vstd::prelude::*;

verus! {

/// Whether `c` is white space, as Unicode defines it.
pub open spec fn is_space(c: char) -> bool {
    ||| ('\u{9}' <= c && c <= '\u{d}')
    ||| c == ' '
    ||| c == '\u{85}'
    ||| c == '\u{a0}'
    ||| c == '\u{1680}'
    ||| ('\u{2000}' <= c && c <= '\u{200a}')
    ||| c == '\u{2028}'
    ||| c == '\u{2029}'
    ||| c == '\u{202f}'
    ||| c == '\u{205f}'
    ||| c == '\u{3000}'
}

/// Whether `c` is a decimal digit.
pub open spec fn is_digit(c: char) -> bool {
    '0' <= c && c <= '9'
}

/// Whether `c` may begin an identifier: a letter of the Latin alphabet or an underscore.
pub open spec fn is_name_start(c: char) -> bool {
    ('a' <= c && c <= 'z') || ('A' <= c && c <= 'Z') || c == '_'
}

/// Whether `c` may continue an identifier: a letter, a digit or an underscore.
pub open spec fn is_name_part(c: char) -> bool {
    is_name_start(c) || is_digit(c)
}

/// Whether `c` is white space.
pub fn char_is_space(c: char) -> (r: bool)
    ensures
        r == is_space(c),
{
    ('\u{9}' <= c && c <= '\u{d}') || c == ' ' || c == '\u{85}' || c == '\u{a0}' || c
        == '\u{1680}' || ('\u{2000}' <= c && c <= '\u{200a}') || c == '\u{2028}' || c
        == '\u{2029}' || c == '\u{202f}' || c == '\u{205f}' || c == '\u{3000}'
}

/// Whether `c` is a decimal digit.
pub fn char_is_digit(c: char) -> (r: bool)
    ensures
        r == is_digit(c),
{
    '0' <= c && c <= '9'
}

/// Whether `c` may begin an identifier.
pub fn char_is_name_start(c: char) -> (r: bool)
    ensures
        r == is_name_start(c),
{
    ('a' <= c && c <= 'z') || ('A' <= c && c <= 'Z') || c == '_'
}

/// Whether `c` may continue an identifier.
pub fn char_is_name_part(c: char) -> (r: bool)
    ensures
        r == is_name_part(c),
{
    char_is_name_start(c) || char_is_digit(c)
}

/// The characters of a text.
pub fn chars_of(text: &str) -> (chars: Vec<char>)
    ensures
        chars@ == text@,
{
    let mut chars: Vec<char> = Vec::new();
    for c in it: text.chars()
        invariant
            chars@ == it.seq().take(it.index() as int),
            it.seq() == text@,
    {
        chars.push(c);
        assert(chars@ =~= it.seq().take(it.index() + 1));
    }
    assert(chars@ =~= text@);
    chars
}

/// The kinds of tokens, with what a literal and an identifier hold.
#[derive(Debug, Clone, PartialEq)]
pub enum TokenType {
    Number(i64),
    Identifier(String),
    /// `+`
    Plus,
    /// `-`
    Minus,
    /// `*`
    Star,
    /// `/`
    Slash,
    /// `%`
    Percent,
    /// `=`
    Equal,
    /// `==`
    EqualEqual,
    /// `!=`
    NotEqual,
    /// `<`
    Less,
    /// `>`
    Greater,
    /// `<=`
    LessEqual,
    /// `>=`
    GreaterEqual,
    /// `(`
    LeftParen,
    /// `)`
    RightParen,
    /// `,`
    Comma,
    /// `;`
    Semicolon,
    /// The keyword `if`.
    If,
    Whitespace,
    /// The end of the input.
    EOF,
}

/// A token: its kind, its text and where it starts.
#[derive(Debug, Clone, PartialEq)]
pub struct Token {
    pub token_type: TokenType,
    pub lexeme: String,
    pub position: usize,
}

impl TokenType {
    /// A copy that equals this kind.
    pub fn duplicate(&self) -> (copy: TokenType)
        ensures
            copy == *self,
    {
        match self {
            TokenType::Number(n) => TokenType::Number(*n),
            TokenType::Identifier(name) => TokenType::Identifier(name.clone()),
            TokenType::Plus => TokenType::Plus,
            TokenType::Minus => TokenType::Minus,
            TokenType::Star => TokenType::Star,
            TokenType::Slash => TokenType::Slash,
            TokenType::Percent => TokenType::Percent,
            TokenType::Equal => TokenType::Equal,
            TokenType::EqualEqual => TokenType::EqualEqual,
            TokenType::NotEqual => TokenType::NotEqual,
            TokenType::Less => TokenType::Less,
            TokenType::Greater => TokenType::Greater,
            TokenType::LessEqual => TokenType::LessEqual,
            TokenType::GreaterEqual => TokenType::GreaterEqual,
            TokenType::LeftParen => TokenType::LeftParen,
            TokenType::RightParen => TokenType::RightParen,
            TokenType::Comma => TokenType::Comma,
            TokenType::Semicolon => TokenType::Semicolon,
            TokenType::If => TokenType::If,
            TokenType::Whitespace => TokenType::Whitespace,
            TokenType::EOF => TokenType::EOF,
        }
    }
}

impl Token {
    /// A copy that equals this token.
    pub fn duplicate(&self) -> (copy: Token)
        ensures
            copy == *self,
    {
        Token {
            token_type: self.token_type.duplicate(),
            lexeme: self.lexeme.clone(),
            position: self.position,
        }
    }
}

/// The first position from `i` on that holds no white space.
pub open spec fn skip_spaces(s: Seq<char>, i: int) -> int
    decreases s.len() - i,
{
    if 0 <= i < s.len() && is_space(s[i]) {
        skip_spaces(s, i + 1)
    } else {
        i
    }
}

/// The first position from `i` on that holds no digit.
pub open spec fn digits_end(s: Seq<char>, i: int) -> int
    decreases s.len() - i,
{
    if 0 <= i < s.len() && is_digit(s[i]) {
        digits_end(s, i + 1)
    } else {
        i
    }
}

/// The first position from `i` on that holds nothing that continues an identifier.
pub open spec fn name_end(s: Seq<char>, i: int) -> int
    decreases s.len() - i,
{
    if 0 <= i < s.len() && is_name_part(s[i]) {
        name_end(s, i + 1)
    } else {
        i
    }
}

/// Whether an equals sign follows the character at `i`.
pub open spec fn equal_follows(s: Seq<char>, i: int) -> bool {
    i + 1 < s.len() && s[i + 1] == '='
}

/// Whether `c` is a token by itself.
pub open spec fn is_single(c: char) -> bool {
    c == '+' || c == '-' || c == '*' || c == '/' || c == '%' || c == '(' || c == ')' || c == ','
        || c == ';'
}

/// Whether `c` is a token that an equals sign may extend.
pub open spec fn is_extensible(c: char) -> bool {
    c == '=' || c == '<' || c == '>'
}

/// Whether a token starts at `i`. An exclamation mark starts one only before an equals
/// sign.
pub open spec fn starts_token(s: Seq<char>, i: int) -> bool {
    &&& 0 <= i < s.len()
    &&& {
        ||| is_single(s[i])
        ||| is_extensible(s[i])
        ||| (s[i] == '!' && equal_follows(s, i))
        ||| is_digit(s[i])
        ||| is_name_start(s[i])
    }
}

/// Where the token that starts at `i` ends: an operator takes an equals sign that follows
/// it, a number all its digits, an identifier all that continues it.
pub open spec fn token_end(s: Seq<char>, i: int) -> int {
    if is_extensible(s[i]) || s[i] == '!' {
        if equal_follows(s, i) {
            i + 2
        } else {
            i + 1
        }
    } else if is_digit(s[i]) {
        digits_end(s, i + 1)
    } else if is_name_start(s[i]) {
        name_end(s, i + 1)
    } else {
        i + 1
    }
}

/// The value of a decimal digit.
pub open spec fn digit_value(c: char) -> int {
    c as int - '0' as int
}

/// The number that a sequence of digits denotes.
pub open spec fn decimal(digits: Seq<char>) -> nat
    decreases digits.len(),
{
    if digits.len() == 0 {
        0
    } else {
        (decimal(digits.drop_last()) * 10 + digit_value(digits.last())) as nat
    }
}

/// The value of a number token: the number that its digits denote, and zero where that
/// number does not fit 64 bits.
pub open spec fn number_value(digits: Seq<char>) -> i64 {
    if decimal(digits) <= i64::MAX {
        decimal(digits) as i64
    } else {
        0
    }
}

/// Whether `t` is the kind of the token with the text `lexeme`.
pub open spec fn is_kind_of(t: TokenType, lexeme: Seq<char>) -> bool {
    match t {
        TokenType::Number(n) => lexeme.len() > 0 && is_digit(lexeme[0]) && n == number_value(
            lexeme,
        ),
        TokenType::Identifier(name) => lexeme.len() > 0 && is_name_start(lexeme[0]) && name@
            == lexeme && lexeme != "if"@,
        TokenType::Plus => lexeme == seq!['+'],
        TokenType::Minus => lexeme == seq!['-'],
        TokenType::Star => lexeme == seq!['*'],
        TokenType::Slash => lexeme == seq!['/'],
        TokenType::Percent => lexeme == seq!['%'],
        TokenType::Equal => lexeme == seq!['='],
        TokenType::EqualEqual => lexeme == seq!['=', '='],
        TokenType::NotEqual => lexeme == seq!['!', '='],
        TokenType::Less => lexeme == seq!['<'],
        TokenType::Greater => lexeme == seq!['>'],
        TokenType::LessEqual => lexeme == seq!['<', '='],
        TokenType::GreaterEqual => lexeme == seq!['>', '='],
        TokenType::LeftParen => lexeme == seq!['('],
        TokenType::RightParen => lexeme == seq![')'],
        TokenType::Comma => lexeme == seq![','],
        TokenType::Semicolon => lexeme == seq![';'],
        TokenType::If => lexeme == "if"@,
        TokenType::Whitespace => false,
        TokenType::EOF => lexeme.len() == 0,
    }
}

/// Whether `t` is the token that `s` holds from `start` to `end`.
pub open spec fn is_token_at(t: Token, s: Seq<char>, start: int, end: int) -> bool {
    &&& t.position == start
    &&& t.lexeme@ == s.subrange(start, end)
    &&& is_kind_of(t.token_type, t.lexeme@)
}

/// Whether `t` is the token that marks the end of the input at `at`.
pub open spec fn is_end_token(t: Token, at: int) -> bool {
    &&& t.position == at
    &&& t.lexeme@ == Seq::<char>::empty()
    &&& t.token_type == TokenType::EOF
}

/// Where the search for the `k`-th token begins, for a lexer that stands at `i`: at `i`
/// for the first token, and where the token before it ended for every other.
pub open spec fn boundary(s: Seq<char>, i: int, k: nat) -> int
    decreases k,
{
    if k == 0 {
        i
    } else {
        token_end(s, skip_spaces(s, boundary(s, i, (k - 1) as nat)))
    }
}

/// Where the `k`-th token starts, for a lexer that stands at `i`.
pub open spec fn token_start(s: Seq<char>, i: int, k: nat) -> int {
    skip_spaces(s, boundary(s, i, k))
}

/// Whether `tokens` are the tokens of `s` from `i` on: each one where the one before it
/// ended, white space aside, and the end token last.
pub open spec fn is_tokenization(s: Seq<char>, i: int, tokens: Seq<Token>) -> bool {
    &&& tokens.len() > 0
    &&& forall|k: nat|
        k < tokens.len() - 1 ==> {
            &&& #[trigger] token_start(s, i, k) < s.len()
            &&& is_token_at(tokens[k as int], s, token_start(s, i, k), boundary(s, i, k + 1))
        }
    &&& token_start(s, i, (tokens.len() - 1) as nat) >= s.len()
    &&& is_end_token(tokens.last(), token_start(s, i, (tokens.len() - 1) as nat))
}

/// Whether all of `s` from `i` on can be cut into tokens: wherever a token has to start,
/// one does.
pub open spec fn is_lexable(s: Seq<char>, i: int) -> bool {
    forall|k: nat| #[trigger] token_start(s, i, k) < s.len() ==> starts_token(s, token_start(s, i, k))
}

/// Whether the lexer can take a token where it stands at `i`: white space aside, the
/// input ends or a token starts.
pub open spec fn token_follows(s: Seq<char>, i: int) -> bool {
    skip_spaces(s, i) >= s.len() || starts_token(s, skip_spaces(s, i))
}

/// A character that starts no token.
#[derive(Debug, Clone, Copy, PartialEq, Eq, Structural)]
pub struct LexError {
    pub position: usize,
    pub character: char,
}

/// Skipping white space moves forward and stops within the input.
pub proof fn lemma_skip_spaces(s: Seq<char>, i: int)
    requires
        0 <= i <= s.len(),
    ensures
        i <= skip_spaces(s, i) <= s.len(),
        skip_spaces(s, i) < s.len() ==> !is_space(s[skip_spaces(s, i)]),
    decreases s.len() - i,
{
    if i < s.len() && is_space(s[i]) {
        lemma_skip_spaces(s, i + 1);
    }
}

/// A run of digits ends within the input.
pub proof fn lemma_digits_end(s: Seq<char>, i: int)
    requires
        0 <= i <= s.len(),
    ensures
        i <= digits_end(s, i) <= s.len(),
    decreases s.len() - i,
{
    if i < s.len() && is_digit(s[i]) {
        lemma_digits_end(s, i + 1);
    }
}

/// A run of identifier characters ends within the input.
pub proof fn lemma_name_end(s: Seq<char>, i: int)
    requires
        0 <= i <= s.len(),
    ensures
        i <= name_end(s, i) <= s.len(),
    decreases s.len() - i,
{
    if i < s.len() && is_name_part(s[i]) {
        lemma_name_end(s, i + 1);
    }
}

/// A token is not empty and ends within the input.
pub proof fn lemma_token_end(s: Seq<char>, i: int)
    requires
        starts_token(s, i),
    ensures
        i < token_end(s, i) <= s.len(),
{
    lemma_digits_end(s, i + 1);
    lemma_name_end(s, i + 1);
}

/// Once the input has ended, every later search for a token finds the end again: where
/// tokens start at all places before the end, the input can be cut into tokens.
pub proof fn lemma_lexable(s: Seq<char>, i: int, n: nat)
    requires
        0 <= i <= s.len(),
        forall|k: nat| k < n ==> starts_token(s, #[trigger] token_start(s, i, k)),
        token_start(s, i, n) >= s.len(),
    ensures
        is_lexable(s, i),
{
    assert forall|k: nat| #[trigger] token_start(s, i, k) < s.len() implies starts_token(
        s,
        token_start(s, i, k),
    ) by {
        if k >= n {
            lemma_past_end(s, i, n, k);
        }
    }
}

/// Once the input has ended, every later search for a token finds the end again.
pub proof fn lemma_past_end(s: Seq<char>, i: int, n: nat, k: nat)
    requires
        token_start(s, i, n) >= s.len(),
        n <= k,
    ensures
        token_start(s, i, k) >= s.len(),
    decreases k,
{
    if k > n {
        lemma_past_end(s, i, n, (k - 1) as nat);
        let at = token_start(s, i, (k - 1) as nat);
        assert(boundary(s, i, k) == token_end(s, at));
        lemma_end_stays(s, at);
    }
}

/// Past the end of the input, a token ends past the end, and so does white space.
pub proof fn lemma_end_stays(s: Seq<char>, at: int)
    requires
        at >= s.len(),
    ensures
        skip_spaces(s, token_end(s, at)) >= s.len(),
{
    let end = token_end(s, at);
    assert(digits_end(s, at + 1) == at + 1);
    assert(name_end(s, at + 1) == at + 1);
    assert(end > at);
    assert(skip_spaces(s, end) == end);
}

/// The lexer: a source text and a position in it.
pub struct Lexer {
    input: Vec<char>,
    current: usize,
}

impl Lexer {
    #[verifier::type_invariant]
    spec fn well_formed(&self) -> bool {
        self.current <= self.input@.len()
    }

    /// The source text.
    pub closed spec fn source(&self) -> Seq<char> {
        self.input@
    }

    /// The position of the next character to read.
    pub closed spec fn offset(&self) -> int {
        self.current as int
    }

    /// A lexer at the start of `input`.
    pub fn new(input: &str) -> (lexer: Lexer)
        ensures
            lexer.source() == input@,
            lexer.offset() == 0,
    {
        Lexer { input: chars_of(input), current: 0 }
    }

    /// Takes the next token. At the end of the input that is the end token.
    pub fn next_token(&mut self) -> (token: Token)
        requires
            token_follows(old(self).source(), old(self).offset()),
        ensures
            final(self).source() == old(self).source(),
            ({
                let s = old(self).source();
                let start = skip_spaces(s, old(self).offset());
                if start >= s.len() {
                    is_end_token(token, start) && final(self).offset() == start
                } else {
                    is_token_at(token, s, start, token_end(s, start)) && final(self).offset()
                        == token_end(s, start)
                }
            }),
    {
        let ghost s = self.input@;
        self.skip_whitespace();
        if self.is_at_end() {
            return Token {
                token_type: TokenType::EOF,
                lexeme: String::new(),
                position: self.current,
            };
        }
        let start_pos = self.current;
        proof {
            lemma_token_end(s, start_pos as int);
        }
        let c = self.advance();
        let token_type = if c == '+' {
            TokenType::Plus
        } else if c == '-' {
            TokenType::Minus
        } else if c == '*' {
            TokenType::Star
        } else if c == '/' {
            TokenType::Slash
        } else if c == '%' {
            TokenType::Percent
        } else if c == '(' {
            TokenType::LeftParen
        } else if c == ')' {
            TokenType::RightParen
        } else if c == ',' {
            TokenType::Comma
        } else if c == ';' {
            TokenType::Semicolon
        } else if c == '=' {
            if self.match_char('=') {
                TokenType::EqualEqual
            } else {
                TokenType::Equal
            }
        } else if c == '!' {
            self.match_char('=');
            TokenType::NotEqual
        } else if c == '<' {
            if self.match_char('=') {
                TokenType::LessEqual
            } else {
                TokenType::Less
            }
        } else if c == '>' {
            if self.match_char('=') {
                TokenType::GreaterEqual
            } else {
                TokenType::Greater
            }
        } else if char_is_digit(c) {
            TokenType::Number(self.read_number(c))
        } else {
            let identifier = self.read_identifier(c);
            if same_text(identifier.as_str(), "if") {
                TokenType::If
            } else {
                TokenType::Identifier(identifier)
            }
        };
        let lexeme = self.text_between(start_pos, self.current);
        proof {
            let text = s.subrange(start_pos as int, self.current as int);
            assert(text.len() == self.current - start_pos);
            assert(text[0] == c);
            if text.len() == 1 {
                assert(text =~= seq![c]);
            }
            if text.len() == 2 {
                assert(text =~= seq![c, s[start_pos + 1]]);
            }
        }
        Token { token_type, lexeme, position: start_pos }
    }

    /// Takes the next token, if one follows: a character that starts no token is
    /// reported and stays unread.
    pub fn try_next_token(&mut self) -> (r: Result<Token, LexError>)
        ensures
            final(self).source() == old(self).source(),
            ({
                let s = old(self).source();
                let start = skip_spaces(s, old(self).offset());
                if start >= s.len() {
                    &&& r is Ok
                    &&& is_end_token(r.unwrap(), start)
                    &&& final(self).offset() == start
                } else if starts_token(s, start) {
                    &&& r is Ok
                    &&& is_token_at(r.unwrap(), s, start, token_end(s, start))
                    &&& final(self).offset() == token_end(s, start)
                } else {
                    &&& r == Err::<Token, LexError>(
                        LexError { position: start as usize, character: s[start] },
                    )
                    &&& final(self).offset() == start
                }
            }),
    {
        let ghost s = self.input@;
        let ghost from = self.current as int;
        self.skip_whitespace();
        proof {
            lemma_skip_spaces(s, from);
            assert(skip_spaces(s, self.current as int) == self.current) by {
                if self.current < s.len() {
                    assert(!is_space(s[self.current as int]));
                }
            }
        }
        if !self.is_at_end() {
            let c = self.input[self.current];
            let follows = self.current + 1 < self.input.len() && self.input[self.current + 1]
                == '=';
            let single = c == '+' || c == '-' || c == '*' || c == '/' || c == '%' || c == '('
                || c == ')' || c == ',' || c == ';';
            let extensible = c == '=' || c == '<' || c == '>';
            let starts = single || extensible || (c == '!' && follows) || char_is_digit(c)
                || char_is_name_start(c);
            if !starts {
                return Err(LexError { position: self.current, character: c });
            }
        }
        Ok(self.next_token())
    }

    /// Takes all tokens up to the end of the input. The end token is the last of them.
    pub fn tokenize(&mut self) -> (tokens: Vec<Token>)
        requires
            is_lexable(old(self).source(), old(self).offset()),
        ensures
            final(self).source() == old(self).source(),
            is_tokenization(old(self).source(), old(self).offset(), tokens@),
    {
        proof {
            use_type_invariant(&*self);
        }
        let ghost s = self.input@;
        let ghost from = self.current as int;
        let mut tokens: Vec<Token> = Vec::new();
        loop
            invariant_except_break
                0 <= self.current <= s.len(),
                self.current == boundary(s, from, tokens@.len()),
                forall|k: nat|
                    k < tokens@.len() ==> {
                        &&& #[trigger] token_start(s, from, k) < s.len()
                        &&& is_token_at(
                            tokens@[k as int],
                            s,
                            token_start(s, from, k),
                            boundary(s, from, k + 1),
                        )
                    },
            invariant
                self.input@ == s,
                s == old(self).source(),
                from == old(self).offset(),
                is_lexable(s, from),
            ensures
                is_tokenization(s, from, tokens@),
            decreases s.len() - self.current,
        {
            let ghost k = tokens@.len();
            let ghost before = tokens@;
            proof {
                lemma_skip_spaces(s, self.current as int);
                assert(token_start(s, from, k) == skip_spaces(s, self.current as int));
                if token_start(s, from, k) < s.len() {
                    lemma_token_end(s, token_start(s, from, k));
                }
            }
            let token = self.next_token();
            let is_eof = matches!(token.token_type, TokenType::EOF);
            proof {
                if token_start(s, from, k) < s.len() {
                    assert(token.lexeme@.len() > 0);
                    assert(!is_eof);
                }
            }
            tokens.push(token);
            proof {
                assert forall|j: nat| j < k implies tokens@[j as int] == before[j as int] by {}
                if !is_eof {
                    assert(boundary(s, from, k + 1) == token_end(s, token_start(s, from, k)));
                    assert(is_token_at(
                        tokens@[k as int],
                        s,
                        token_start(s, from, k),
                        boundary(s, from, k + 1),
                    ));
                }
            }
            if is_eof {
                break ;
            }
        }
        tokens
    }

    /// Takes all tokens up to the end of the input, if the input can be cut into tokens:
    /// a character that starts no token is reported.
    pub fn try_tokenize(&mut self) -> (r: Result<Vec<Token>, LexError>)
        ensures
            final(self).source() == old(self).source(),
            match r {
                Ok(tokens) => {
                    &&& is_lexable(old(self).source(), old(self).offset())
                    &&& is_tokenization(old(self).source(), old(self).offset(), tokens@)
                },
                Err(e) => {
                    &&& !is_lexable(old(self).source(), old(self).offset())
                    &&& e.position < old(self).source().len()
                    &&& e.character == old(self).source()[e.position as int]
                    &&& !starts_token(old(self).source(), e.position as int)
                    &&& exists|k: nat| #[trigger]
                        token_start(old(self).source(), old(self).offset(), k) == e.position
                },
            },
    {
        proof {
            use_type_invariant(&*self);
        }
        let ghost s = self.input@;
        let ghost from = self.current as int;
        let mut tokens: Vec<Token> = Vec::new();
        loop
            invariant
                self.input@ == s,
                s == old(self).source(),
                from == old(self).offset(),
                0 <= from <= s.len(),
                0 <= self.current <= s.len(),
                self.current == boundary(s, from, tokens@.len()),
                forall|k: nat|
                    k < tokens@.len() ==> {
                        &&& #[trigger] token_start(s, from, k) < s.len()
                        &&& starts_token(s, token_start(s, from, k))
                        &&& is_token_at(
                            tokens@[k as int],
                            s,
                            token_start(s, from, k),
                            boundary(s, from, k + 1),
                        )
                    },
            decreases s.len() - self.current,
        {
            let ghost k = tokens@.len();
            let ghost before = tokens@;
            proof {
                lemma_skip_spaces(s, self.current as int);
                assert(token_start(s, from, k) == skip_spaces(s, self.current as int));
                if starts_token(s, token_start(s, from, k)) {
                    lemma_token_end(s, token_start(s, from, k));
                }
            }
            match self.try_next_token() {
                Err(e) => {
                    assert(token_start(s, from, k) == e.position);
                    return Err(e);
                },
                Ok(token) => {
                    let is_eof = matches!(token.token_type, TokenType::EOF);
                    proof {
                        if token_start(s, from, k) < s.len() {
                            assert(token.lexeme@.len() > 0);
                            assert(!is_eof);
                        }
                    }
                    tokens.push(token);
                    proof {
                        assert forall|j: nat| j < k implies tokens@[j as int] == before[j as int] by {}
                        if !is_eof {
                            assert(boundary(s, from, k + 1) == token_end(
                                s,
                                token_start(s, from, k),
                            ));
                            assert(is_token_at(
                                tokens@[k as int],
                                s,
                                token_start(s, from, k),
                                boundary(s, from, k + 1),
                            ));
                        }
                    }
                    if is_eof {
                        proof {
                            lemma_lexable(s, from, k);
                        }
                        return Ok(tokens);
                    }
                },
            }
        }
    }

    /// Whether the whole input is read.
    fn is_at_end(&self) -> (r: bool)
        ensures
            r == (self.current >= self.input@.len()),
            self.current <= self.input@.len(),
            self.input@.len() <= usize::MAX,
    {
        proof {
            use_type_invariant(self);
        }
        self.current >= self.input.len()
    }

    /// Reads the next character.
    fn advance(&mut self) -> (c: char)
        requires
            old(self).current < old(self).input@.len(),
        ensures
            c == old(self).input@[old(self).current as int],
            final(self).input == old(self).input,
            final(self).current == old(self).current + 1,
    {
        let len = self.input.len();
        let c = self.input[self.current];
        self.current = self.current + 1;
        c
    }

    /// The next character, or the null character at the end of the input.
    fn peek(&self) -> (c: char)
        ensures
            c == if self.current < self.input@.len() {
                self.input@[self.current as int]
            } else {
                '\0'
            },
    {
        if self.is_at_end() {
            '\0'
        } else {
            self.input[self.current]
        }
    }

    /// Reads the next character if it is `expected`.
    fn match_char(&mut self, expected: char) -> (matched: bool)
        ensures
            final(self).input == old(self).input,
            matched == (old(self).current < old(self).input@.len() && old(self).input@[old(
                self,
            ).current as int] == expected),
            final(self).current == if matched {
                old(self).current + 1
            } else {
                old(self).current as int
            },
    {
        if self.is_at_end() || self.input[self.current] != expected {
            false
        } else {
            self.current = self.current + 1;
            true
        }
    }

    /// Reads white space as far as it goes.
    fn skip_whitespace(&mut self)
        ensures
            final(self).input == old(self).input,
            final(self).current == skip_spaces(old(self).input@, old(self).current as int),
            final(self).current <= final(self).input@.len(),
    {
        proof {
            use_type_invariant(&*self);
        }
        while !self.is_at_end() && char_is_space(self.peek())
            invariant
                self.input == old(self).input,
                self.current <= self.input@.len(),
                skip_spaces(self.input@, self.current as int) == skip_spaces(
                    old(self).input@,
                    old(self).current as int,
                ),
            decreases self.input@.len() - self.current,
        {
            self.advance();
        }
    }

    /// Reads the digits that follow the digit just read. Returns the value of the number.
    fn read_number(&mut self, first_digit: char) -> (n: i64)
        requires
            1 <= old(self).current,
            is_digit(first_digit),
            old(self).input@[old(self).current - 1] == first_digit,
        ensures
            final(self).input == old(self).input,
            final(self).current == digits_end(old(self).input@, old(self).current as int),
            n == number_value(
                old(self).input@.subrange(old(self).current - 1, final(self).current as int),
            ),
    {
        proof {
            use_type_invariant(&*self);
        }
        let ghost s = self.input@;
        let ghost first = self.current - 1;
        let mut value: u64 = digit_of(first_digit);
        let mut fits = true;
        proof {
            reveal_with_fuel(decimal, 2);
            assert(s.subrange(first, first + 1).drop_last() =~= Seq::<char>::empty());
        }
        while !self.is_at_end() && char_is_digit(self.peek())
            invariant
                self.input@ == s,
                self.input == old(self).input,
                first == old(self).current - 1,
                0 <= first < self.current <= s.len(),
                digits_end(s, self.current as int) == digits_end(s, first + 1),
                fits ==> value == decimal(s.subrange(first, self.current as int)) && value
                    <= i64::MAX,
                !fits ==> decimal(s.subrange(first, self.current as int)) > i64::MAX,
            decreases s.len() - self.current,
        {
            let ghost before = s.subrange(first, self.current as int);
            let c = self.advance();
            let d = digit_of(c);
            proof {
                let now = s.subrange(first, self.current as int);
                assert(now.drop_last() =~= before);
                assert(now.last() == c);
            }
            if fits {
                if value <= 922337203685477580 {
                    let next = value * 10 + d;
                    if next <= 0x7fff_ffff_ffff_ffff {
                        value = next;
                    } else {
                        fits = false;
                    }
                } else {
                    fits = false;
                }
            }
        }
        if fits {
            value as i64
        } else {
            0
        }
    }

    /// Reads what continues the identifier whose first character was just read. Returns
    /// the identifier.
    fn read_identifier(&mut self, first_char: char) -> (identifier: String)
        requires
            1 <= old(self).current,
            old(self).input@[old(self).current - 1] == first_char,
        ensures
            final(self).input == old(self).input,
            final(self).current == name_end(old(self).input@, old(self).current as int),
            identifier@ == old(self).input@.subrange(
                old(self).current - 1,
                final(self).current as int,
            ),
    {
        proof {
            use_type_invariant(&*self);
        }
        let ghost s = self.input@;
        let ghost first = self.current - 1;
        let mut identifier = String::new();
        identifier.push(first_char);
        assert(identifier@ =~= s.subrange(first, first + 1));
        while !self.is_at_end() && char_is_name_part(self.peek())
            invariant
                self.input@ == s,
                self.input == old(self).input,
                first == old(self).current - 1,
                0 <= first < self.current <= s.len(),
                name_end(s, self.current as int) == name_end(s, first + 1),
                identifier@ == s.subrange(first, self.current as int),
            decreases s.len() - self.current,
        {
            let c = self.advance();
            identifier.push(c);
            assert(identifier@ =~= s.subrange(first, self.current as int));
        }
        identifier
    }

    /// The text from `start` to `end`.
    fn text_between(&self, start: usize, end: usize) -> (text: String)
        requires
            start <= end <= self.input@.len(),
        ensures
            text@ == self.input@.subrange(start as int, end as int),
    {
        let mut text = String::new();
        let mut i = start;
        assert(text@ =~= self.input@.subrange(start as int, i as int));
        while i < end
            invariant
                start <= i <= end <= self.input@.len(),
                text@ == self.input@.subrange(start as int, i as int),
            decreases end - i,
        {
            text.push(self.input[i]);
            i = i + 1;
            assert(text@ =~= self.input@.subrange(start as int, i as int));
        }
        text
    }
}

/// The value of a decimal digit.
fn digit_of(c: char) -> (d: u64)
    requires
        is_digit(c),
    ensures
        d == digit_value(c),
        d <= 9,
{
    (c as u64) - 48
}

} // verus!
