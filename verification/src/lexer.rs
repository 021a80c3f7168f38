//! The lexer: from source text to tokens.
//!
//! The text is read from left to right, and at each position the token that
//! stands there is taken, the longer one where one token begins another.
//! Spaces, tabs and form feeds between tokens are passed over, and a
//! character that starts no token is an error.

use regex::Regex;
use vstd::prelude::*;
use vstd::string::StrSliceExecFns;
use crate::statement::Label;

verus! {

/// A token of the language.
#[derive(Debug, PartialEq)]
pub enum Token {
    /// A decimal literal, as its text: digits with at most one point among
    /// them, and at least one digit.
    Number(String),
    Or,
    Xor,
    And,
    Not,
    Lparen,
    Rparen,
    Equal,
    NotEqual,
    Greater,
    GreaterEqual,
    Less,
    LessEqual,
    Plus,
    Minus,
    Negate,
    Mult,
    Divide,
    Power,
    Store,
    /// A scientific suffix `e`, `e-` and one or two digits: the exponent.
    Scientific(i32),
    /// A real variable: a capital letter, or `θ`, which is written `Theta`.
    RealVar(char),
    If,
    Then,
    Else,
    For,
    While,
    Repeat,
    End,
    Disp,
    Lbl(Label),
    Goto(Label),
    DecrementSkip,
    IncrementSkip,
    Comma,
    EndOfLine,
    EndOfInput,
}

/// The mathematical content of a [`Token`].
pub enum TokenView {
    Number(Seq<char>),
    Or,
    Xor,
    And,
    Not,
    Lparen,
    Rparen,
    Equal,
    NotEqual,
    Greater,
    GreaterEqual,
    Less,
    LessEqual,
    Plus,
    Minus,
    Negate,
    Mult,
    Divide,
    Power,
    Store,
    Scientific(i32),
    RealVar(char),
    If,
    Then,
    Else,
    For,
    While,
    Repeat,
    End,
    Disp,
    Lbl(Label),
    Goto(Label),
    DecrementSkip,
    IncrementSkip,
    Comma,
    EndOfLine,
    EndOfInput,
}

impl View for Token {
    type V = TokenView;

    open spec fn view(&self) -> TokenView {
        match self {
            Token::Number(text) => TokenView::Number(text@),
            Token::Or => TokenView::Or,
            Token::Xor => TokenView::Xor,
            Token::And => TokenView::And,
            Token::Not => TokenView::Not,
            Token::Lparen => TokenView::Lparen,
            Token::Rparen => TokenView::Rparen,
            Token::Equal => TokenView::Equal,
            Token::NotEqual => TokenView::NotEqual,
            Token::Greater => TokenView::Greater,
            Token::GreaterEqual => TokenView::GreaterEqual,
            Token::Less => TokenView::Less,
            Token::LessEqual => TokenView::LessEqual,
            Token::Plus => TokenView::Plus,
            Token::Minus => TokenView::Minus,
            Token::Negate => TokenView::Negate,
            Token::Mult => TokenView::Mult,
            Token::Divide => TokenView::Divide,
            Token::Power => TokenView::Power,
            Token::Store => TokenView::Store,
            Token::Scientific(exponent) => TokenView::Scientific(*exponent),
            Token::RealVar(name) => TokenView::RealVar(*name),
            Token::If => TokenView::If,
            Token::Then => TokenView::Then,
            Token::Else => TokenView::Else,
            Token::For => TokenView::For,
            Token::While => TokenView::While,
            Token::Repeat => TokenView::Repeat,
            Token::End => TokenView::End,
            Token::Disp => TokenView::Disp,
            Token::Lbl(label) => TokenView::Lbl(*label),
            Token::Goto(label) => TokenView::Goto(*label),
            Token::DecrementSkip => TokenView::DecrementSkip,
            Token::IncrementSkip => TokenView::IncrementSkip,
            Token::Comma => TokenView::Comma,
            Token::EndOfLine => TokenView::EndOfLine,
            Token::EndOfInput => TokenView::EndOfInput,
        }
    }
}

impl Token {
    /// Whether the token is one that carries nothing: a keyword, an operator
    /// or a mark.
    pub open spec fn plain(self) -> bool {
        match self {
            Token::Number(_) => false,
            Token::Scientific(_) => false,
            Token::RealVar(_) => false,
            Token::Lbl(_) => false,
            Token::Goto(_) => false,
            _ => true,
        }
    }

    /// Whether the token is the plain token `kind`.
    pub fn is(&self, kind: &Token) -> (r: bool)
        requires
            kind.plain(),
        ensures
            r == (*self == *kind),
    {
        match kind {
            Token::Or => matches!(self, Token::Or),
            Token::Xor => matches!(self, Token::Xor),
            Token::And => matches!(self, Token::And),
            Token::Not => matches!(self, Token::Not),
            Token::Lparen => matches!(self, Token::Lparen),
            Token::Rparen => matches!(self, Token::Rparen),
            Token::Equal => matches!(self, Token::Equal),
            Token::NotEqual => matches!(self, Token::NotEqual),
            Token::Greater => matches!(self, Token::Greater),
            Token::GreaterEqual => matches!(self, Token::GreaterEqual),
            Token::Less => matches!(self, Token::Less),
            Token::LessEqual => matches!(self, Token::LessEqual),
            Token::Plus => matches!(self, Token::Plus),
            Token::Minus => matches!(self, Token::Minus),
            Token::Negate => matches!(self, Token::Negate),
            Token::Mult => matches!(self, Token::Mult),
            Token::Divide => matches!(self, Token::Divide),
            Token::Power => matches!(self, Token::Power),
            Token::Store => matches!(self, Token::Store),
            Token::If => matches!(self, Token::If),
            Token::Then => matches!(self, Token::Then),
            Token::Else => matches!(self, Token::Else),
            Token::For => matches!(self, Token::For),
            Token::While => matches!(self, Token::While),
            Token::Repeat => matches!(self, Token::Repeat),
            Token::End => matches!(self, Token::End),
            Token::Disp => matches!(self, Token::Disp),
            Token::DecrementSkip => matches!(self, Token::DecrementSkip),
            Token::IncrementSkip => matches!(self, Token::IncrementSkip),
            Token::Comma => matches!(self, Token::Comma),
            Token::EndOfLine => matches!(self, Token::EndOfLine),
            Token::EndOfInput => matches!(self, Token::EndOfInput),
            _ => false,
        }
    }

    /// A copy of the token.
    pub fn duplicate(&self) -> (copy: Token)
        ensures
            copy == *self,
    {
        match self {
            Token::Number(text) => Token::Number(text.clone()),
            Token::Scientific(exponent) => Token::Scientific(*exponent),
            Token::RealVar(name) => Token::RealVar(*name),
            Token::Lbl(label) => Token::Lbl(*label),
            Token::Goto(label) => Token::Goto(*label),
            Token::Or => Token::Or,
            Token::Xor => Token::Xor,
            Token::And => Token::And,
            Token::Not => Token::Not,
            Token::Lparen => Token::Lparen,
            Token::Rparen => Token::Rparen,
            Token::Equal => Token::Equal,
            Token::NotEqual => Token::NotEqual,
            Token::Greater => Token::Greater,
            Token::GreaterEqual => Token::GreaterEqual,
            Token::Less => Token::Less,
            Token::LessEqual => Token::LessEqual,
            Token::Plus => Token::Plus,
            Token::Minus => Token::Minus,
            Token::Negate => Token::Negate,
            Token::Mult => Token::Mult,
            Token::Divide => Token::Divide,
            Token::Power => Token::Power,
            Token::Store => Token::Store,
            Token::If => Token::If,
            Token::Then => Token::Then,
            Token::Else => Token::Else,
            Token::For => Token::For,
            Token::While => Token::While,
            Token::Repeat => Token::Repeat,
            Token::End => Token::End,
            Token::Disp => Token::Disp,
            Token::DecrementSkip => Token::DecrementSkip,
            Token::IncrementSkip => Token::IncrementSkip,
            Token::Comma => Token::Comma,
            Token::EndOfLine => Token::EndOfLine,
            Token::EndOfInput => Token::EndOfInput,
        }
    }
}

/// Why a text could not be split into tokens.
#[derive(Debug)]
pub enum LexError {
    /// No token starts with this piece of the text.
    UnknownToken(String),
}

/// The pattern that a label's name is found with: the first one or two
/// characters in a row that a name may be made of.
pub const LABEL_PATTERN: &'static str = "[A-Z|0-9|θ]{1,2}";

/// The digits `0` to `9`.
pub open spec fn digit(c: char) -> bool {
    '0' <= c <= '9'
}

/// The letters `A` to `Z`.
pub open spec fn capital(c: char) -> bool {
    'A' <= c <= 'Z'
}

/// The characters that a label's name is made of.
pub open spec fn label_char(c: char) -> bool {
    capital(c) || digit(c) || c == '|' || c == 'θ'
}

/// The characters between tokens that mean nothing.
pub open spec fn gap(c: char) -> bool {
    c == ' ' || c == '\t' || c == '\x0C'
}

/// White space, which may stand between `Lbl` or `Goto` and the name.
pub open spec fn blank(c: char) -> bool {
    ||| '\t' <= c <= '\r'
    ||| c == ' '
    ||| c == '\u{85}'
    ||| c == '\u{A0}'
    ||| c == '\u{1680}'
    ||| '\u{2000}' <= c <= '\u{200A}'
    ||| c == '\u{2028}'
    ||| c == '\u{2029}'
    ||| c == '\u{202F}'
    ||| c == '\u{205F}'
    ||| c == '\u{3000}'
}

/// Whether `word` stands in `input` at `pos`.
pub open spec fn starts(input: Seq<char>, pos: int, word: Seq<char>) -> bool {
    &&& 0 <= pos
    &&& pos + word.len() <= input.len()
    &&& forall|i: int|
        #![trigger word[i]]
        #![trigger input[pos + i]]
        0 <= i < word.len() ==> input[pos + i] == word[i]
}

/// The number of digits in a row from `pos` on.
pub open spec fn digits(input: Seq<char>, pos: int) -> nat
    decreases input.len() - pos,
{
    if 0 <= pos < input.len() && digit(input[pos]) {
        1 + digits(input, pos + 1)
    } else {
        0
    }
}

/// The number of white-space characters in a row from `pos` on.
pub open spec fn blanks(input: Seq<char>, pos: int) -> nat
    decreases input.len() - pos,
{
    if 0 <= pos < input.len() && blank(input[pos]) {
        1 + blanks(input, pos + 1)
    } else {
        0
    }
}

/// The value of a digit.
pub open spec fn digit_value(c: char) -> int {
    c as int - '0' as int
}

/// What stands at a position of the text.
pub enum Munch {
    /// So many characters that mean nothing.
    Skip(int),
    /// A token, of so many characters.
    Found(TokenView, int),
    /// So many characters that start no token.
    Bad(int),
}

/// The token that is written with fixed characters and stands at `pos`, with
/// its length. Where one such token begins another, the longer one is
/// taken.
pub open spec fn fixed_token(input: Seq<char>, pos: int) -> Option<(TokenView, int)> {
    if starts(input, pos, seq!['o', 'r']) {
        Some((TokenView::Or, 2))
    } else if starts(input, pos, seq!['x', 'o', 'r']) {
        Some((TokenView::Xor, 3))
    } else if starts(input, pos, seq!['a', 'n', 'd']) {
        Some((TokenView::And, 3))
    } else if starts(input, pos, seq!['n', 'o', 't', '(']) {
        Some((TokenView::Not, 4))
    } else if starts(input, pos, seq!['(']) {
        Some((TokenView::Lparen, 1))
    } else if starts(input, pos, seq![')']) {
        Some((TokenView::Rparen, 1))
    } else if starts(input, pos, seq!['=']) {
        Some((TokenView::Equal, 1))
    } else if starts(input, pos, seq!['!', '=']) {
        Some((TokenView::NotEqual, 2))
    } else if starts(input, pos, seq!['>', '=']) {
        Some((TokenView::GreaterEqual, 2))
    } else if starts(input, pos, seq!['>']) {
        Some((TokenView::Greater, 1))
    } else if starts(input, pos, seq!['<', '=']) {
        Some((TokenView::LessEqual, 2))
    } else if starts(input, pos, seq!['<']) {
        Some((TokenView::Less, 1))
    } else if starts(input, pos, seq!['+']) {
        Some((TokenView::Plus, 1))
    } else if starts(input, pos, seq!['-', '-']) {
        Some((TokenView::Negate, 2))
    } else if starts(input, pos, seq!['-', '>']) {
        Some((TokenView::Store, 2))
    } else if starts(input, pos, seq!['-']) {
        Some((TokenView::Minus, 1))
    } else if starts(input, pos, seq!['*']) {
        Some((TokenView::Mult, 1))
    } else if starts(input, pos, seq!['/']) {
        Some((TokenView::Divide, 1))
    } else if starts(input, pos, seq!['^']) {
        Some((TokenView::Power, 1))
    } else if starts(input, pos, seq!['T', 'h', 'e', 't', 'a']) {
        Some((TokenView::RealVar('θ'), 5))
    } else if starts(input, pos, seq!['I', 'f']) {
        Some((TokenView::If, 2))
    } else if starts(input, pos, seq!['T', 'h', 'e', 'n']) {
        Some((TokenView::Then, 4))
    } else if starts(input, pos, seq!['E', 'l', 's', 'e']) {
        Some((TokenView::Else, 4))
    } else if starts(input, pos, seq!['F', 'o', 'r', '(']) {
        Some((TokenView::For, 4))
    } else if starts(input, pos, seq!['W', 'h', 'i', 'l', 'e']) {
        Some((TokenView::While, 5))
    } else if starts(input, pos, seq!['R', 'e', 'p', 'e', 'a', 't']) {
        Some((TokenView::Repeat, 6))
    } else if starts(input, pos, seq!['E', 'n', 'd']) {
        Some((TokenView::End, 3))
    } else if starts(input, pos, seq!['D', 'i', 's', 'p']) {
        Some((TokenView::Disp, 4))
    } else if starts(input, pos, seq!['D', 'S', '<', '(']) {
        Some((TokenView::DecrementSkip, 4))
    } else if starts(input, pos, seq!['I', 'S', '>', '(']) {
        Some((TokenView::IncrementSkip, 4))
    } else if starts(input, pos, seq!['I', 'S', '<', '(']) {
        Some((TokenView::IncrementSkip, 4))
    } else if starts(input, pos, seq![',']) {
        Some((TokenView::Comma, 1))
    } else if starts(input, pos, seq!['\r', '\n']) {
        Some((TokenView::EndOfLine, 2))
    } else if starts(input, pos, seq!['\n']) {
        Some((TokenView::EndOfLine, 1))
    } else if starts(input, pos, seq![':']) {
        Some((TokenView::EndOfLine, 1))
    } else {
        None
    }
}

/// The length of the decimal literal that stands at `pos`: digits, then
/// possibly a point and more digits.
pub open spec fn number_length(input: Seq<char>, pos: int) -> int {
    let whole = digits(input, pos) as int;
    if pos + whole < input.len() && input[pos + whole] == '.' {
        whole + 1 + digits(input, pos + whole + 1)
    } else {
        whole
    }
}

/// The scientific suffix that stands at `pos`, as its exponent and its
/// length: `e`, possibly `-`, and one digit or two.
pub open spec fn scientific_at(input: Seq<char>, pos: int) -> Option<(i32, int)> {
    if 0 <= pos < input.len() && input[pos] == 'e' {
        let negative = pos + 1 < input.len() && input[pos + 1] == '-';
        let first = if negative {
            pos + 2
        } else {
            pos + 1
        };
        if first < input.len() && digit(input[first]) {
            let two = first + 1 < input.len() && digit(input[first + 1]);
            let size = if two {
                10 * digit_value(input[first]) + digit_value(input[first + 1])
            } else {
                digit_value(input[first])
            };
            Some(
                (
                    (if negative {
                        -size
                    } else {
                        size
                    }) as i32,
                    if two {
                        first + 2 - pos
                    } else {
                        first + 1 - pos
                    },
                ),
            )
        } else {
            None
        }
    } else {
        None
    }
}

/// The label that follows a keyword of `keyword` characters at `pos`, with
/// the length of keyword, white space and name together: any white space,
/// then one or two characters of a name.
pub open spec fn label_at(input: Seq<char>, pos: int, keyword: int) -> Option<(Label, int)> {
    let first = pos + keyword + blanks(input, pos + keyword);
    if 0 <= first < input.len() && label_char(input[first]) {
        if first + 1 < input.len() && label_char(input[first + 1]) {
            Some((Label { first: input[first], second: Some(input[first + 1]) }, first + 2 - pos))
        } else {
            Some((Label { first: input[first], second: None }, first + 1 - pos))
        }
    } else {
        None
    }
}

/// The `Lbl` or `Goto` token that stands at `pos`, with its length.
pub open spec fn labelled_at(input: Seq<char>, pos: int) -> Option<(TokenView, int)> {
    if starts(input, pos, seq!['L', 'b', 'l']) {
        match label_at(input, pos, 3) {
            Some((label, length)) => Some((TokenView::Lbl(label), length)),
            None => None,
        }
    } else if starts(input, pos, seq!['G', 'o', 't', 'o']) {
        match label_at(input, pos, 4) {
            Some((label, length)) => Some((TokenView::Goto(label), length)),
            None => None,
        }
    } else {
        None
    }
}

/// What stands at `pos`, a position within the text.
pub open spec fn munch(input: Seq<char>, pos: int) -> Munch {
    let c = input[pos];
    if gap(c) {
        Munch::Skip(1)
    } else if digit(c) || c == '.' {
        let length = number_length(input, pos);
        if length == 1 && c == '.' {
            Munch::Bad(1)
        } else {
            Munch::Found(TokenView::Number(input.subrange(pos, pos + length)), length)
        }
    } else if let Some((exponent, length)) = scientific_at(input, pos) {
        Munch::Found(TokenView::Scientific(exponent), length)
    } else if let Some((label, length)) = labelled_at(input, pos) {
        Munch::Found(label, length)
    } else if let Some((token, length)) = fixed_token(input, pos) {
        Munch::Found(token, length)
    } else if capital(c) {
        Munch::Found(TokenView::RealVar(c), 1)
    } else {
        Munch::Bad(1)
    }
}

/// The tokens of the text from `pos` on, behind those in `sofar`, with the
/// end-of-input token at the end; or the first piece of the text that starts
/// no token. That what stands at `pos` has a length within the text is
/// tested for the sake of the definition; the test never fails (see
/// [`lemma_munch_in_range`]).
pub open spec fn tokens_from(input: Seq<char>, pos: int, sofar: Seq<TokenView>) -> Result<
    Seq<TokenView>,
    Seq<char>,
>
    decreases input.len() - pos,
{
    if pos < 0 || pos >= input.len() {
        Ok(sofar.push(TokenView::EndOfInput))
    } else {
        match munch(input, pos) {
            Munch::Skip(length) => if 1 <= length <= input.len() - pos {
                tokens_from(input, pos + length, sofar)
            } else {
                Ok(sofar)
            },
            Munch::Found(token, length) => if 1 <= length <= input.len() - pos {
                tokens_from(input, pos + length, sofar.push(token))
            } else {
                Ok(sofar)
            },
            Munch::Bad(length) => Err(input.subrange(pos, pos + length)),
        }
    }
}

/// The tokens of a text, or the first piece of it that starts no token.
pub open spec fn tokenize(input: Seq<char>) -> Result<Seq<TokenView>, Seq<char>> {
    tokens_from(input, 0, Seq::empty())
}

/// The index of the first character at or behind `from` that a label's name
/// may be made of, or the length of the text if there is none.
pub open spec fn name_start(text: Seq<char>, from: int) -> int
    decreases text.len() - from,
{
    if 0 <= from < text.len() && !label_char(text[from]) {
        name_start(text, from + 1)
    } else if from < text.len() {
        from
    } else {
        text.len() as int
    }
}

/// The first match of [`LABEL_PATTERN`] in a text: from the first character
/// that a name may be made of, that character and the next one if it is
/// such a character too.
pub open spec fn label_match(text: Seq<char>) -> Option<Seq<char>> {
    let start = name_start(text, 0);
    if start >= text.len() {
        None
    } else if start + 1 < text.len() && label_char(text[start + 1]) {
        Some(text.subrange(start, start + 2))
    } else {
        Some(text.subrange(start, start + 1))
    }
}

/// [`regex::Regex::find`] with the pattern [`LABEL_PATTERN`], which
/// [`regex::Regex::new`] compiles. This is not proved; it is what the two
/// are documented to do. `new` accepts the pattern, which is a character
/// class repeated once or twice, greedily. `find` gives the leftmost match:
/// so the result is the text from the first character of the class on, two
/// characters long if the next character is in the class too, else one; and
/// nothing if no character of the text is in the class. The class holds the
/// capital letters `A` to `Z`, the digits, `|` and `θ`.
#[verifier::external_body]
fn find_label(pattern: &str, text: &str) -> (found: Option<String>)
    requires
        pattern@ == LABEL_PATTERN@,
    ensures
        match found {
            Some(name) => label_match(text@) == Some(name@),
            None => label_match(text@) is None,
        },
{
    match Regex::new(pattern) {
        Ok(re) => match re.find(text) {
            Some(found) => Some(found.as_str().to_string()),
            None => None,
        },
        Err(_) => None,
    }
}

/// The contents of a sequence of tokens.
pub open spec fn token_views(tokens: Seq<Token>) -> Seq<TokenView> {
    Seq::new(tokens.len(), |i: int| tokens[i]@)
}

/// In a text that begins with `skipped` characters of which no name is made
/// and has a character of a name behind them, the name starts there.
pub proof fn lemma_name_start(text: Seq<char>, from: int, skipped: int)
    requires
        0 <= from <= skipped < text.len(),
        forall|i: int| from <= i < skipped ==> !label_char(#[trigger] text[i]),
        label_char(text[skipped]),
    ensures
        name_start(text, from) == skipped,
    decreases skipped - from,
{
    if from < skipped {
        lemma_name_start(text, from + 1, skipped);
    }
}

/// The white space counted from `pos` on is white space, and ends within the
/// text.
pub proof fn lemma_blanks(input: Seq<char>, pos: int)
    requires
        0 <= pos <= input.len(),
    ensures
        0 <= blanks(input, pos) <= input.len() - pos,
        forall|i: int| pos <= i < pos + blanks(input, pos) ==> blank(#[trigger] input[i]),
        pos + blanks(input, pos) < input.len() ==> !blank(input[pos + blanks(input, pos)]),
    decreases input.len() - pos,
{
    if pos < input.len() && blank(input[pos]) {
        lemma_blanks(input, pos + 1);
    }
}

/// The digits counted from `pos` on end within the text.
pub proof fn lemma_digits(input: Seq<char>, pos: int)
    requires
        0 <= pos <= input.len(),
    ensures
        digits(input, pos) <= input.len() - pos,
    decreases input.len() - pos,
{
    if pos < input.len() && digit(input[pos]) {
        lemma_digits(input, pos + 1);
    }
}

/// What stands at a position of the text is at least one character long
/// and ends within the text: the lexer gets on, and comes to the end.
pub proof fn lemma_munch_in_range(input: Seq<char>, pos: int)
    requires
        0 <= pos < input.len(),
    ensures
        match munch(input, pos) {
            Munch::Skip(length) => 1 <= length <= input.len() - pos,
            Munch::Found(_, length) => 1 <= length <= input.len() - pos,
            Munch::Bad(length) => 1 <= length <= input.len() - pos,
        },
{
    lemma_digits(input, pos);
    let whole = digits(input, pos) as int;
    if pos + whole < input.len() {
        lemma_digits(input, pos + whole + 1);
    }
    if pos + 3 <= input.len() {
        lemma_blanks(input, pos + 3);
    }
    if pos + 4 <= input.len() {
        lemma_blanks(input, pos + 4);
    }
}

/// There are no more tokens than characters, but for the end-of-input token.
pub proof fn lemma_token_count(input: Seq<char>, pos: int, sofar: Seq<TokenView>)
    requires
        0 <= pos <= input.len(),
    ensures
        tokens_from(input, pos, sofar) matches Ok(tokens) ==> tokens.len() <= sofar.len()
            + input.len() - pos + 1,
    decreases input.len() - pos,
{
    if pos < input.len() {
        match munch(input, pos) {
            Munch::Skip(length) => {
                if 1 <= length <= input.len() - pos {
                    lemma_token_count(input, pos + length, sofar);
                }
            },
            Munch::Found(token, length) => {
                if 1 <= length <= input.len() - pos {
                    lemma_token_count(input, pos + length, sofar.push(token));
                }
            },
            Munch::Bad(_) => {},
        }
    }
}

/// What the lexer found at a position: the counterpart of [`Munch`].
pub enum Lexeme {
    Skip(usize),
    Found(Token, usize),
    Bad(usize),
}

impl View for Lexeme {
    type V = Munch;

    open spec fn view(&self) -> Munch {
        match self {
            Lexeme::Skip(length) => Munch::Skip(*length as int),
            Lexeme::Found(token, length) => Munch::Found(token@, *length as int),
            Lexeme::Bad(length) => Munch::Bad(*length as int),
        }
    }
}

fn is_digit(c: char) -> (r: bool)
    ensures
        r == digit(c),
{
    '0' <= c && c <= '9'
}

fn is_capital(c: char) -> (r: bool)
    ensures
        r == capital(c),
{
    'A' <= c && c <= 'Z'
}

fn is_label_char(c: char) -> (r: bool)
    ensures
        r == label_char(c),
{
    is_capital(c) || is_digit(c) || c == '|' || c == 'θ'
}

fn is_gap(c: char) -> (r: bool)
    ensures
        r == gap(c),
{
    c == ' ' || c == '\t' || c == '\x0C'
}

fn is_blank(c: char) -> (r: bool)
    ensures
        r == blank(c),
{
    ('\t' <= c && c <= '\r') || c == ' ' || c == '\u{85}' || c == '\u{A0}' || c == '\u{1680}' || (
    '\u{2000}' <= c && c <= '\u{200A}') || c == '\u{2028}' || c == '\u{2029}' || c == '\u{202F}'
        || c == '\u{205F}' || c == '\u{3000}'
}

/// The characters of a text.
fn characters(input: &str) -> (chars: Vec<char>)
    ensures
        chars@ == input@,
{
    let mut chars: Vec<char> = Vec::new();
    for c in it: input.chars()
        invariant
            chars@ == it.seq().take(it.index() as int),
            it.seq() == input@,
    {
        chars.push(c);
        assert(chars@ =~= it.seq().take(it.index() + 1));
    }
    assert(chars@ =~= input@);
    chars
}

/// Whether `word` stands in `chars` at `pos`.
fn starts_with<const N: usize>(chars: &Vec<char>, pos: usize, word: &[char; N]) -> (r: bool)
    ensures
        r == starts(chars@, pos as int, word@),
{
    if pos > chars.len() || N > chars.len() - pos {
        return false;
    }
    let mut i: usize = 0;
    while i < N
        invariant
            i <= N,
            pos + N <= chars.len(),
            forall|j: int| 0 <= j < i ==> chars@[pos + j] == word@[j],
        decreases N - i,
    {
        if chars[pos + i] != word[i] {
            return false;
        }
        i += 1;
    }
    true
}

/// The number of digits in a row from `pos` on.
fn count_digits(chars: &Vec<char>, pos: usize) -> (count: usize)
    requires
        pos <= chars.len(),
    ensures
        count == digits(chars@, pos as int),
        pos + count <= chars.len(),
{
    let mut end: usize = pos;
    while end < chars.len() && is_digit(chars[end])
        invariant
            pos <= end <= chars.len(),
            digits(chars@, pos as int) == (end - pos) + digits(chars@, end as int),
        decreases chars.len() - end,
    {
        end += 1;
    }
    end - pos
}

/// The number of white-space characters in a row from `pos` on.
fn count_blanks(chars: &Vec<char>, pos: usize) -> (count: usize)
    requires
        pos <= chars.len(),
    ensures
        count == blanks(chars@, pos as int),
        pos + count <= chars.len(),
{
    let mut end: usize = pos;
    while end < chars.len() && is_blank(chars[end])
        invariant
            pos <= end <= chars.len(),
            blanks(chars@, pos as int) == (end - pos) + blanks(chars@, end as int),
        decreases chars.len() - end,
    {
        end += 1;
    }
    end - pos
}

/// The decimal literal at `pos`, where a digit or a point stands: its text
/// and its length, or nothing if it is a point alone.
fn number(input: &str, chars: &Vec<char>, pos: usize) -> (found: Option<(String, usize)>)
    requires
        chars@ == input@,
        pos < chars.len(),
        digit(chars@[pos as int]) || chars@[pos as int] == '.',
    ensures
        match found {
            Some((text, length)) => {
                &&& length == number_length(chars@, pos as int)
                &&& 1 <= length <= chars.len() - pos
                &&& !(length == 1 && chars@[pos as int] == '.')
                &&& text@ == chars@.subrange(pos as int, pos + length)
            },
            None => number_length(chars@, pos as int) == 1 && chars@[pos as int] == '.',
        },
{
    let whole = count_digits(chars, pos);
    let length = if pos + whole < chars.len() && chars[pos + whole] == '.' {
        whole + 1 + count_digits(chars, pos + whole + 1)
    } else {
        whole
    };
    if length == 1 && chars[pos] == '.' {
        None
    } else {
        Some((input.substring_char(pos, pos + length).to_owned(), length))
    }
}

/// The value of a digit.
fn digit_of(c: char) -> (value: i32)
    requires
        digit(c),
    ensures
        value == digit_value(c),
        0 <= value <= 9,
{
    (c as u32 - '0' as u32) as i32
}

/// The scientific suffix at `pos`: its exponent and its length.
fn scientific_parser(chars: &Vec<char>, pos: usize) -> (found: Option<(i32, usize)>)
    requires
        pos < chars.len(),
    ensures
        match found {
            Some((exponent, length)) => scientific_at(chars@, pos as int) == Some(
                (exponent, length as int),
            ) && 1 <= length <= chars.len() - pos,
            None => scientific_at(chars@, pos as int) is None,
        },
{
    if chars[pos] != 'e' {
        return None;
    }
    let negative = pos + 1 < chars.len() && chars[pos + 1] == '-';
    let first: usize = if negative {
        pos + 2
    } else {
        pos + 1
    };
    if first < chars.len() && is_digit(chars[first]) {
        let two = first + 1 < chars.len() && is_digit(chars[first + 1]);
        let size: i32 = if two {
            10 * digit_of(chars[first]) + digit_of(chars[first + 1])
        } else {
            digit_of(chars[first])
        };
        let exponent: i32 = if negative {
            -size
        } else {
            size
        };
        let length: usize = if two {
            first + 2 - pos
        } else {
            first + 1 - pos
        };
        Some((exponent, length))
    } else {
        None
    }
}

/// The label behind a keyword of `keyword` characters at `pos`, with the
/// length of keyword, white space and name together. The name is what the
/// label pattern finds in the lexeme without its first character.
fn parse_label(input: &str, chars: &Vec<char>, pos: usize, keyword: usize) -> (found: Option<
    (Label, usize),
>)
    requires
        chars@ == input@,
        pos + keyword <= chars.len(),
        starts(chars@, pos as int, seq!['L', 'b', 'l']) && keyword == 3 || starts(
            chars@,
            pos as int,
            seq!['G', 'o', 't', 'o'],
        ) && keyword == 4,
    ensures
        match found {
            Some((label, length)) => label_at(chars@, pos as int, keyword as int) == Some(
                (label, length as int),
            ) && 1 <= length <= chars.len() - pos,
            None => label_at(chars@, pos as int, keyword as int) is None,
        },
{
    let gap = count_blanks(chars, pos + keyword);
    let first = pos + keyword + gap;
    if first >= chars.len() || !is_label_char(chars[first]) {
        return None;
    }
    let length = if first + 1 < chars.len() && is_label_char(chars[first + 1]) {
        first + 2 - pos
    } else {
        first + 1 - pos
    };
    let slice = input.substring_char(pos + 1, pos + length);
    proof {
        let word = if keyword == 3 {
            seq!['L', 'b', 'l']
        } else {
            seq!['G', 'o', 't', 'o']
        };
        lemma_blanks(chars@, pos + keyword);
        assert forall|i: int| 0 <= i < first - pos - 1 implies !label_char(#[trigger] slice@[i]) by {
            if i + 1 < keyword {
                assert(chars@[pos + (i + 1)] == word[i + 1]);
            } else {
                assert(blank(chars@[pos + 1 + i]));
            }
        }
        lemma_name_start(slice@, 0, first - pos - 1);
    }
    match find_label(LABEL_PATTERN, slice) {
        Some(name) => {
            let name = name.as_str();
            let size = name.unicode_len();
            if size == 1 {
                Some((Label { first: name.get_char(0), second: None }, length))
            } else if size == 2 {
                Some((Label { first: name.get_char(0), second: Some(name.get_char(1)) }, length))
            } else {
                None
            }
        },
        None => None,
    }
}

/// The token that is written with fixed characters and stands at `pos`.
fn fixed(chars: &Vec<char>, pos: usize) -> (found: Option<(Token, usize)>)
    ensures
        match found {
            Some((token, length)) => fixed_token(chars@, pos as int) == Some(
                (token@, length as int),
            ) && 1 <= length <= chars.len() - pos,
            None => fixed_token(chars@, pos as int) is None,
        },
{
    if starts_with(chars, pos, &['o', 'r']) {
        Some((Token::Or, 2))
    } else if starts_with(chars, pos, &['x', 'o', 'r']) {
        Some((Token::Xor, 3))
    } else if starts_with(chars, pos, &['a', 'n', 'd']) {
        Some((Token::And, 3))
    } else if starts_with(chars, pos, &['n', 'o', 't', '(']) {
        Some((Token::Not, 4))
    } else if starts_with(chars, pos, &['(']) {
        Some((Token::Lparen, 1))
    } else if starts_with(chars, pos, &[')']) {
        Some((Token::Rparen, 1))
    } else if starts_with(chars, pos, &['=']) {
        Some((Token::Equal, 1))
    } else if starts_with(chars, pos, &['!', '=']) {
        Some((Token::NotEqual, 2))
    } else if starts_with(chars, pos, &['>', '=']) {
        Some((Token::GreaterEqual, 2))
    } else if starts_with(chars, pos, &['>']) {
        Some((Token::Greater, 1))
    } else if starts_with(chars, pos, &['<', '=']) {
        Some((Token::LessEqual, 2))
    } else if starts_with(chars, pos, &['<']) {
        Some((Token::Less, 1))
    } else if starts_with(chars, pos, &['+']) {
        Some((Token::Plus, 1))
    } else if starts_with(chars, pos, &['-', '-']) {
        Some((Token::Negate, 2))
    } else if starts_with(chars, pos, &['-', '>']) {
        Some((Token::Store, 2))
    } else if starts_with(chars, pos, &['-']) {
        Some((Token::Minus, 1))
    } else if starts_with(chars, pos, &['*']) {
        Some((Token::Mult, 1))
    } else if starts_with(chars, pos, &['/']) {
        Some((Token::Divide, 1))
    } else if starts_with(chars, pos, &['^']) {
        Some((Token::Power, 1))
    } else if starts_with(chars, pos, &['T', 'h', 'e', 't', 'a']) {
        Some((Token::RealVar('θ'), 5))
    } else if starts_with(chars, pos, &['I', 'f']) {
        Some((Token::If, 2))
    } else if starts_with(chars, pos, &['T', 'h', 'e', 'n']) {
        Some((Token::Then, 4))
    } else if starts_with(chars, pos, &['E', 'l', 's', 'e']) {
        Some((Token::Else, 4))
    } else if starts_with(chars, pos, &['F', 'o', 'r', '(']) {
        Some((Token::For, 4))
    } else if starts_with(chars, pos, &['W', 'h', 'i', 'l', 'e']) {
        Some((Token::While, 5))
    } else if starts_with(chars, pos, &['R', 'e', 'p', 'e', 'a', 't']) {
        Some((Token::Repeat, 6))
    } else if starts_with(chars, pos, &['E', 'n', 'd']) {
        Some((Token::End, 3))
    } else if starts_with(chars, pos, &['D', 'i', 's', 'p']) {
        Some((Token::Disp, 4))
    } else if starts_with(chars, pos, &['D', 'S', '<', '(']) {
        Some((Token::DecrementSkip, 4))
    } else if starts_with(chars, pos, &['I', 'S', '>', '(']) {
        Some((Token::IncrementSkip, 4))
    } else if starts_with(chars, pos, &['I', 'S', '<', '(']) {
        Some((Token::IncrementSkip, 4))
    } else if starts_with(chars, pos, &[',']) {
        Some((Token::Comma, 1))
    } else if starts_with(chars, pos, &['\r', '\n']) {
        Some((Token::EndOfLine, 2))
    } else if starts_with(chars, pos, &['\n']) {
        Some((Token::EndOfLine, 1))
    } else if starts_with(chars, pos, &[':']) {
        Some((Token::EndOfLine, 1))
    } else {
        None
    }
}

/// The `Lbl` or `Goto` token at `pos`.
fn labelled(input: &str, chars: &Vec<char>, pos: usize) -> (found: Option<(Token, usize)>)
    requires
        chars@ == input@,
    ensures
        match found {
            Some((token, length)) => labelled_at(chars@, pos as int) == Some(
                (token@, length as int),
            ) && 1 <= length <= chars.len() - pos,
            None => labelled_at(chars@, pos as int) is None,
        },
{
    if starts_with(chars, pos, &['L', 'b', 'l']) {
        match parse_label(input, chars, pos, 3) {
            Some((label, length)) => Some((Token::Lbl(label), length)),
            None => None,
        }
    } else if starts_with(chars, pos, &['G', 'o', 't', 'o']) {
        match parse_label(input, chars, pos, 4) {
            Some((label, length)) => Some((Token::Goto(label), length)),
            None => None,
        }
    } else {
        None
    }
}

/// What stands at `pos`.
fn next_lexeme(input: &str, chars: &Vec<char>, pos: usize) -> (lexeme: Lexeme)
    requires
        chars@ == input@,
        pos < chars.len(),
    ensures
        lexeme@ == munch(chars@, pos as int),
        match lexeme {
            Lexeme::Skip(length) => 1 <= length <= chars.len() - pos,
            Lexeme::Found(_, length) => 1 <= length <= chars.len() - pos,
            Lexeme::Bad(length) => 1 <= length <= chars.len() - pos,
        },
{
    let c = chars[pos];
    if is_gap(c) {
        return Lexeme::Skip(1);
    }
    if is_digit(c) || c == '.' {
        return match number(input, chars, pos) {
            Some((text, length)) => Lexeme::Found(Token::Number(text), length),
            None => Lexeme::Bad(1),
        };
    }
    if let Some((exponent, length)) = scientific_parser(chars, pos) {
        return Lexeme::Found(Token::Scientific(exponent), length);
    }
    if let Some((token, length)) = labelled(input, chars, pos) {
        return Lexeme::Found(token, length);
    }
    if let Some((token, length)) = fixed(chars, pos) {
        return Lexeme::Found(token, length);
    }
    if is_capital(c) {
        Lexeme::Found(Token::RealVar(c), 1)
    } else {
        Lexeme::Bad(1)
    }
}

/// Splits a text into tokens, the last of which is the end-of-input token.
/// It fails at the first piece of the text that starts no token.
pub fn lex(input: &String) -> (r: Result<Vec<Token>, LexError>)
    ensures
        match r {
            Ok(tokens) => tokenize(input@) == Ok::<Seq<TokenView>, Seq<char>>(
                token_views(tokens@),
            ),
            Err(LexError::UnknownToken(piece)) => tokenize(input@) == Err::<
                Seq<TokenView>,
                Seq<char>,
            >(piece@),
        },
{
    let text = input.as_str();
    let chars = characters(text);
    let mut all: Vec<Token> = Vec::new();
    let mut pos: usize = 0;
    assert(token_views(all@) =~= Seq::empty());
    while pos < chars.len()
        invariant
            chars@ == text@,
            text@ == input@,
            pos <= chars.len(),
            tokens_from(chars@, pos as int, token_views(all@)) == tokenize(chars@),
        decreases chars.len() - pos,
    {
        match next_lexeme(text, &chars, pos) {
            Lexeme::Skip(length) => {
                pos += length;
            },
            Lexeme::Found(token, length) => {
                let ghost before = token_views(all@);
                all.push(token);
                assert(token_views(all@) =~= before.push(token@));
                pos += length;
            },
            Lexeme::Bad(length) => {
                return Err(
                    LexError::UnknownToken(text.substring_char(pos, pos + length).to_owned()),
                );
            },
        }
    }
    let ghost before = token_views(all@);
    all.push(Token::EndOfInput);
    assert(token_views(all@) =~= before.push(TokenView::EndOfInput));
    Ok(all)
}

/// The tokens of a text that is known to consist of tokens.
pub fn lex_str(input: &str) -> (tokens: Vec<Token>)
    requires
        tokenize(input@) is Ok,
    ensures
        tokenize(input@) == Ok::<Seq<TokenView>, Seq<char>>(token_views(tokens@)),
{
    match lex(&input.to_owned()) {
        Ok(tokens) => tokens,
        Err(_) => Vec::new(),
    }
}

} // verus!
