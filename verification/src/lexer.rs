//! The tokenizer: a single-pass, finite-state scanner over a character
//! sequence.
//!
//! The scanner classifies each character, or maximal run of characters, into
//! one token. Blanks (spaces and tabs) are skipped and produce no token; the
//! newline that closes a comment is consumed together with the comment but
//! excluded from its text. Every other character lands in exactly one token,
//! so the token texts plus the skipped characters account for the whole
//! input. Unrecognized characters become `Unknown` tokens: the scan never
//! fails.

use vstd::prelude::*;
use vstd::string::StrSliceExecFns;

verus! {

/// The lexical category of a token.
///
/// `Space` is part of the closed set of categories, but under the skipping
/// policy of this scanner no `Space` token is ever emitted.
#[derive(Clone, Copy, Debug, PartialEq, Eq, Structural)]
pub enum TokenKind {
    Comment,
    Identifier,
    Number,
    Plus,
    Minus,
    Star,
    Slash,
    Equals,
    LeftParen,
    RightParen,
    Space,
    EndOfLine,
    Unknown,
}

/// A token as mathematics: its category, its exact text, and the zero-based
/// line and one-based column of its first character.
#[verifier::ext_equal]
pub ghost struct TokenModel {
    pub kind: TokenKind,
    pub text: Seq<char>,
    pub line: int,
    pub column: int,
}

/// A token: the category, the exact characters consumed, and the zero-based
/// line and one-based column of the token's first character. The column
/// counts every scanned character on the line, skipped blanks included.
#[derive(Debug, PartialEq)]
pub struct Token {
    pub kind: TokenKind,
    pub text: Vec<char>,
    pub line: usize,
    pub column: usize,
}

impl View for Token {
    type V = TokenModel;

    open spec fn view(&self) -> TokenModel {
        TokenModel {
            kind: self.kind,
            text: self.text@,
            line: self.line as int,
            column: self.column as int,
        }
    }
}

/// The models of a sequence of tokens, in order.
pub open spec fn token_models(tokens: Seq<Token>) -> Seq<TokenModel> {
    tokens.map_values(|t: Token| t@)
}

/// A decimal digit.
pub open spec fn is_digit_char(c: char) -> bool {
    ('0' as u32) <= (c as u32) && (c as u32) <= ('9' as u32)
}

/// An ASCII letter.
pub open spec fn is_letter_char(c: char) -> bool {
    (('a' as u32) <= (c as u32) && (c as u32) <= ('z' as u32)) || (('A' as u32) <= (c as u32)
        && (c as u32) <= ('Z' as u32))
}

/// A blank that the scanner skips without emitting a token.
pub open spec fn is_blank_char(c: char) -> bool {
    c == ' ' || c == '\t'
}

/// The category of a token made of the single character `c`, for characters
/// that neither start a run (digit, letter, `#`) nor are a newline or blank.
pub open spec fn single_char_kind(c: char) -> TokenKind {
    if c == '+' {
        TokenKind::Plus
    } else if c == '-' {
        TokenKind::Minus
    } else if c == '*' {
        TokenKind::Star
    } else if c == '/' {
        TokenKind::Slash
    } else if c == '=' {
        TokenKind::Equals
    } else if c == '(' {
        TokenKind::LeftParen
    } else if c == ')' {
        TokenKind::RightParen
    } else {
        TokenKind::Unknown
    }
}

/// The position just past the maximal run of digits that starts at `pos`.
pub open spec fn digit_run_end(s: Seq<char>, pos: int) -> int
    decreases s.len() - pos,
        when 0 <= pos <= s.len()
{
    if pos < s.len() && is_digit_char(s[pos]) {
        digit_run_end(s, pos + 1)
    } else {
        pos
    }
}

/// The position just past the maximal run of letters that starts at `pos`.
pub open spec fn letter_run_end(s: Seq<char>, pos: int) -> int
    decreases s.len() - pos,
        when 0 <= pos <= s.len()
{
    if pos < s.len() && is_letter_char(s[pos]) {
        letter_run_end(s, pos + 1)
    } else {
        pos
    }
}

/// The position of the first newline at or after `pos`, or the end of the
/// input if none follows.
pub open spec fn comment_run_end(s: Seq<char>, pos: int) -> int
    decreases s.len() - pos,
        when 0 <= pos <= s.len()
{
    if pos < s.len() && s[pos] != '\n' {
        comment_run_end(s, pos + 1)
    } else {
        pos
    }
}

pub proof fn lemma_digit_run_end(s: Seq<char>, pos: int)
    requires
        0 <= pos <= s.len(),
    ensures
        pos <= digit_run_end(s, pos) <= s.len(),
        forall|i: int| pos <= i < digit_run_end(s, pos) ==> is_digit_char(s[i]),
        digit_run_end(s, pos) < s.len() ==> !is_digit_char(s[digit_run_end(s, pos)]),
        pos < s.len() && is_digit_char(s[pos]) ==> pos < digit_run_end(s, pos),
    decreases s.len() - pos,
{
    if pos < s.len() && is_digit_char(s[pos]) {
        lemma_digit_run_end(s, pos + 1);
    }
}

pub proof fn lemma_letter_run_end(s: Seq<char>, pos: int)
    requires
        0 <= pos <= s.len(),
    ensures
        pos <= letter_run_end(s, pos) <= s.len(),
        forall|i: int| pos <= i < letter_run_end(s, pos) ==> is_letter_char(s[i]),
        letter_run_end(s, pos) < s.len() ==> !is_letter_char(s[letter_run_end(s, pos)]),
        pos < s.len() && is_letter_char(s[pos]) ==> pos < letter_run_end(s, pos),
    decreases s.len() - pos,
{
    if pos < s.len() && is_letter_char(s[pos]) {
        lemma_letter_run_end(s, pos + 1);
    }
}

pub proof fn lemma_comment_run_end(s: Seq<char>, pos: int)
    requires
        0 <= pos <= s.len(),
    ensures
        pos <= comment_run_end(s, pos) <= s.len(),
        forall|i: int| pos <= i < comment_run_end(s, pos) ==> s[i] != '\n',
        comment_run_end(s, pos) < s.len() ==> s[comment_run_end(s, pos)] == '\n',
        pos < s.len() && s[pos] != '\n' ==> pos < comment_run_end(s, pos),
    decreases s.len() - pos,
{
    if pos < s.len() && s[pos] != '\n' {
        lemma_comment_run_end(s, pos + 1);
    }
}

/// The tokens produced by scanning `s` from position `pos`, with the scan
/// currently on zero-based line `line` at one-based column `col`.
///
/// One recursive step consumes one token's worth of characters (or one
/// skipped blank) and states exactly which token, if any, is emitted.
pub open spec fn spec_tokenize_from(s: Seq<char>, pos: int, line: int, col: int) -> Seq<
    TokenModel,
>
    decreases s.len() - pos,
        when 0 <= pos <= s.len()
        via spec_tokenize_from_decreases
{
    if pos == s.len() {
        Seq::empty()
    } else {
        let c = s[pos];
        if is_digit_char(c) {
            let end: int = digit_run_end(s, pos);
            seq![
                TokenModel {
                    kind: TokenKind::Number,
                    text: s.subrange(pos, end),
                    line: line,
                    column: col,
                },
            ] + spec_tokenize_from(s, end, line, col + (end - pos))
        } else if is_letter_char(c) {
            let end: int = letter_run_end(s, pos);
            seq![
                TokenModel {
                    kind: TokenKind::Identifier,
                    text: s.subrange(pos, end),
                    line: line,
                    column: col,
                },
            ] + spec_tokenize_from(s, end, line, col + (end - pos))
        } else if c == '#' {
            let end: int = comment_run_end(s, pos);
            if end < s.len() {
                seq![
                    TokenModel {
                        kind: TokenKind::Comment,
                        text: s.subrange(pos, end),
                        line: line,
                        column: col,
                    },
                ] + spec_tokenize_from(s, end + 1, line + 1, 1)
            } else {
                seq![
                    TokenModel {
                        kind: TokenKind::Comment,
                        text: s.subrange(pos, end),
                        line: line,
                        column: col,
                    },
                ] + spec_tokenize_from(s, end, line, col + (end - pos))
            }
        } else if c == '\n' {
            seq![
                TokenModel { kind: TokenKind::EndOfLine, text: seq!['\n'], line: line, column: col },
            ] + spec_tokenize_from(s, pos + 1, line + 1, 1)
        } else if is_blank_char(c) {
            spec_tokenize_from(s, pos + 1, line, col + 1)
        } else {
            seq![
                TokenModel { kind: single_char_kind(c), text: seq![c], line: line, column: col },
            ] + spec_tokenize_from(s, pos + 1, line, col + 1)
        }
    }
}

#[via_fn]
proof fn spec_tokenize_from_decreases(s: Seq<char>, pos: int, line: int, col: int) {
    if 0 <= pos < s.len() {
        lemma_digit_run_end(s, pos);
        lemma_letter_run_end(s, pos);
        lemma_comment_run_end(s, pos);
    }
}

/// The complete token sequence of the input `s`: the scan starts at the
/// first character, on line 0, in column 1.
pub open spec fn spec_tokenize(s: Seq<char>) -> Seq<TokenModel> {
    spec_tokenize_from(s, 0, 0, 1)
}

/// The state of the scanner: what kind of run, if any, the cursor stands on.
///
/// `Done` is terminal and is reached exactly when the cursor reaches the end
/// of the input.
#[derive(Clone, Copy, Debug)]
pub enum State {
    Start,
    InNumber,
    InVariable,
    InComment,
    Done,
}

/// A measure for the scan's progress at one cursor position: entering a run
/// state from `Start` consumes nothing, but can happen only once before the
/// run itself consumes at least one character.
pub open spec fn state_rank(st: State) -> int {
    match st {
        State::Start => 1,
        State::InNumber => 0,
        State::InVariable => 0,
        State::InComment => 0,
        State::Done => 0,
    }
}

/// Whether `c` is a decimal digit.
fn digit_char(c: char) -> (r: bool)
    ensures
        r == is_digit_char(c),
{
    let u = c as u32;
    ('0' as u32) <= u && u <= ('9' as u32)
}

/// Whether `c` is an ASCII letter.
fn letter_char(c: char) -> (r: bool)
    ensures
        r == is_letter_char(c),
{
    let u = c as u32;
    (('a' as u32) <= u && u <= ('z' as u32)) || (('A' as u32) <= u && u <= ('Z' as u32))
}

/// The scanner: a cursor over the characters of the input, the machine
/// state, and the line and column the cursor stands on.
pub struct Lexer {
    pub symbols: Vec<char>,
    pub position: usize,
    pub current_state: State,
    pub line: usize,
    pub column: usize,
}

impl Lexer {
    /// The character under the cursor.
    pub open spec fn current_char(self) -> char {
        self.symbols@[self.position as int]
    }

    /// Well-formedness of the scanner.
    ///
    /// The cursor stays within the input; the line index never exceeds the
    /// cursor (a line ends only where a character was consumed), and the
    /// column, one-based, never runs past the cursor by more than the one
    /// position it names. A run state is only ever held while the cursor
    /// stands on a character that starts that run, and `Done` only at the
    /// end of the input.
    pub open spec fn wf(self) -> bool {
        &&& self.symbols@.len() < usize::MAX
        &&& self.position <= self.symbols@.len()
        &&& self.line <= self.position
        &&& 1 <= self.column
        &&& self.column <= self.position + 1
        &&& match self.current_state {
            State::Start => true,
            State::InNumber => self.position < self.symbols@.len() && is_digit_char(
                self.current_char(),
            ),
            State::InVariable => self.position < self.symbols@.len() && is_letter_char(
                self.current_char(),
            ),
            State::InComment => self.position < self.symbols@.len() && self.current_char() == '#',
            State::Done => self.position == self.symbols@.len(),
        }
    }

    /// The tokens that the rest of the scan, from the cursor on, yields.
    pub open spec fn remaining(self) -> Seq<TokenModel> {
        spec_tokenize_from(
            self.symbols@,
            self.position as int,
            self.line as int,
            self.column as int,
        )
    }

    /// The scanner after one `Start`-state step, as the transition table
    /// fixes it: a digit, letter or `#` consumes nothing and only enters the
    /// matching run state; a newline consumes one character, advances the
    /// line and resets the column; every other character — a blank, an
    /// operator, a parenthesis or an unknown one — consumes exactly one
    /// character and advances the column by one, the state staying as it is.
    pub open spec fn start_next(self) -> Lexer {
        let c = self.current_char();
        if is_digit_char(c) {
            Lexer { current_state: State::InNumber, ..self }
        } else if is_letter_char(c) {
            Lexer { current_state: State::InVariable, ..self }
        } else if c == '#' {
            Lexer { current_state: State::InComment, ..self }
        } else if c == '\n' {
            Lexer {
                position: (self.position + 1) as usize,
                line: (self.line + 1) as usize,
                column: 1,
                ..self
            }
        } else {
            Lexer {
                position: (self.position + 1) as usize,
                column: (self.column + 1) as usize,
                ..self
            }
        }
    }

    /// The tokens that one `Start`-state step emits: none for a character
    /// that begins a run or for a skipped blank; one `EndOfLine` token for a
    /// newline; and one single-character token of the matching category for
    /// everything else, at the scanner's current line and column.
    pub open spec fn start_emitted(self) -> Seq<TokenModel> {
        let c = self.current_char();
        if is_digit_char(c) || is_letter_char(c) || c == '#' || is_blank_char(c) {
            Seq::empty()
        } else if c == '\n' {
            seq![
                TokenModel {
                    kind: TokenKind::EndOfLine,
                    text: seq!['\n'],
                    line: self.line as int,
                    column: self.column as int,
                },
            ]
        } else {
            seq![
                TokenModel {
                    kind: single_char_kind(c),
                    text: seq![c],
                    line: self.line as int,
                    column: self.column as int,
                },
            ]
        }
    }

    /// The scanner after an `InNumber` step: the cursor just past the
    /// maximal digit run, the column advanced by the run's length, the state
    /// back at `Start`.
    pub open spec fn number_next(self) -> Lexer {
        let end: int = digit_run_end(self.symbols@, self.position as int);
        Lexer {
            position: end as usize,
            column: (self.column + (end - self.position)) as usize,
            current_state: State::Start,
            ..self
        }
    }

    /// The one `Number` token that an `InNumber` step emits: its text is the
    /// maximal digit run beginning at the cursor.
    pub open spec fn number_emitted(self) -> Seq<TokenModel> {
        let end: int = digit_run_end(self.symbols@, self.position as int);
        seq![
            TokenModel {
                kind: TokenKind::Number,
                text: self.symbols@.subrange(self.position as int, end),
                line: self.line as int,
                column: self.column as int,
            },
        ]
    }

    /// The scanner after an `InVariable` step: the cursor just past the
    /// maximal letter run, the column advanced by the run's length, the
    /// state back at `Start`.
    pub open spec fn variable_next(self) -> Lexer {
        let end: int = letter_run_end(self.symbols@, self.position as int);
        Lexer {
            position: end as usize,
            column: (self.column + (end - self.position)) as usize,
            current_state: State::Start,
            ..self
        }
    }

    /// The one `Identifier` token that an `InVariable` step emits: its text
    /// is the maximal letter run beginning at the cursor.
    pub open spec fn variable_emitted(self) -> Seq<TokenModel> {
        let end: int = letter_run_end(self.symbols@, self.position as int);
        seq![
            TokenModel {
                kind: TokenKind::Identifier,
                text: self.symbols@.subrange(self.position as int, end),
                line: self.line as int,
                column: self.column as int,
            },
        ]
    }

    /// The scanner after an `InComment` step. When a newline closes the
    /// comment, the cursor moves just past that newline, the line advances
    /// and the column resets; when the input ends first, the cursor moves to
    /// the end with the column advanced by the run's length. Either way the
    /// state is back at `Start`.
    pub open spec fn comment_next(self) -> Lexer {
        let end: int = comment_run_end(self.symbols@, self.position as int);
        if end < self.symbols@.len() {
            Lexer {
                position: (end + 1) as usize,
                line: (self.line + 1) as usize,
                column: 1,
                current_state: State::Start,
                ..self
            }
        } else {
            Lexer {
                position: end as usize,
                column: (self.column + (end - self.position)) as usize,
                current_state: State::Start,
                ..self
            }
        }
    }

    /// The one `Comment` token that an `InComment` step emits: its text runs
    /// from the cursor up to, and excluding, the closing newline (or to the
    /// end of the input).
    pub open spec fn comment_emitted(self) -> Seq<TokenModel> {
        let end: int = comment_run_end(self.symbols@, self.position as int);
        seq![
            TokenModel {
                kind: TokenKind::Comment,
                text: self.symbols@.subrange(self.position as int, end),
                line: self.line as int,
                column: self.column as int,
            },
        ]
    }

    /// A fresh scanner over the characters of `input`, with the cursor at
    /// the first character, on line 0, in column 1.
    pub fn new(input: &str) -> (lexer: Lexer)
        requires
            input@.len() < usize::MAX,
        ensures
            lexer.wf(),
            lexer.symbols@ == input@,
            lexer.position == 0,
            lexer.current_state is Start,
            lexer.line == 0,
            lexer.column == 1,
    {
        let n = input.unicode_len();
        let mut symbols: Vec<char> = Vec::new();
        let mut i: usize = 0;
        while i < n
            invariant
                i <= n,
                n == input@.len(),
                symbols@ == input@.subrange(0, i as int),
            decreases n - i,
        {
            symbols.push(input.get_char(i));
            proof {
                assert(input@.subrange(0, i as int).push(input@[i as int]) =~= input@.subrange(
                    0,
                    i as int + 1,
                ));
            }
            i = i + 1;
        }
        proof {
            assert(input@.subrange(0, input@.len() as int) =~= input@);
        }
        Lexer { symbols, position: 0, current_state: State::Start, line: 0, column: 1 }
    }

    /// Tokenize the whole input in a single pass and return the tokens in
    /// order: exactly the sequence that `spec_tokenize` gives on the input
    /// characters.
    ///
    /// The scan is single-shot: it takes a freshly constructed scanner and
    /// leaves it in the terminal `Done` state with the cursor at the end of
    /// the input.
    pub fn tokenize(&mut self) -> (tokens: Vec<Token>)
        requires
            old(self).wf(),
            old(self).current_state is Start,
            old(self).position == 0,
            old(self).line == 0,
            old(self).column == 1,
        ensures
            final(self).symbols@ == old(self).symbols@,
            final(self).current_state is Done,
            final(self).position == final(self).symbols@.len(),
            token_models(tokens@) == spec_tokenize(old(self).symbols@),
    {
        let mut tokens: Vec<Token> = Vec::new();
        while self.position < self.symbols.len()
            invariant
                self.wf(),
                !(self.current_state is Done),
                self.symbols@ == old(self).symbols@,
                token_models(tokens@) + self.remaining() == spec_tokenize(old(self).symbols@),
            ensures
                self.wf(),
                self.symbols@ == old(self).symbols@,
                self.position == self.symbols@.len(),
                token_models(tokens@) + self.remaining() == spec_tokenize(old(self).symbols@),
            decreases self.symbols@.len() - self.position, state_rank(self.current_state),
        {
            match self.current_state {
                State::Start => self.handle_start_state(&mut tokens),
                State::InNumber => self.handle_in_number_state(&mut tokens),
                State::InVariable => self.handle_in_variable_state(&mut tokens),
                State::InComment => self.handle_in_comment_state(&mut tokens),
                State::Done => break,
            }
        }
        self.current_state = State::Done;
        proof {
            assert(token_models(tokens@) + self.remaining() =~= token_models(tokens@));
        }
        tokens
    }

    /// Handle the `Start` state: classify the character under the cursor.
    ///
    /// A digit, a letter or `#` begins a run and only moves the scanner into
    /// the matching run state, consuming nothing. A newline is emitted as an
    /// `EndOfLine` token and ends the line. A blank is skipped without a
    /// token. Every other character is emitted on its own, as the operator
    /// or parenthesis token it names, or as `Unknown`.
    pub fn handle_start_state(&mut self, tokens: &mut Vec<Token>)
        requires
            old(self).wf(),
            old(self).current_state is Start,
            old(self).position < old(self).symbols@.len(),
        ensures
            final(self).wf(),
            !(final(self).current_state is Done),
            final(self).symbols@ == old(self).symbols@,
            old(self).position <= final(self).position,
            final(self).position == old(self).position ==> state_rank(final(self).current_state)
                < state_rank(old(self).current_state),
            *final(self) == old(self).start_next(),
            token_models(final(tokens)@) == token_models(old(tokens)@) + old(self).start_emitted(),
            token_models(final(tokens)@) + final(self).remaining() == token_models(old(tokens)@)
                + old(self).remaining(),
    {
        let c = self.symbols[self.position];
        if digit_char(c) {
            self.current_state = State::InNumber;
            proof {
                lemma_token_models_append_none(tokens@);
            }
        } else if letter_char(c) {
            self.current_state = State::InVariable;
            proof {
                lemma_token_models_append_none(tokens@);
            }
        } else if c == '#' {
            self.current_state = State::InComment;
            proof {
                lemma_token_models_append_none(tokens@);
            }
        } else if c == '\n' {
            let mut text: Vec<char> = Vec::new();
            text.push('\n');
            let token = Token {
                kind: TokenKind::EndOfLine,
                text,
                line: self.line,
                column: self.column,
            };
            let ghost m = token@;
            tokens.push(token);
            self.position = self.position + 1;
            self.line = self.line + 1;
            self.column = 1;
            proof {
                assert(m.text =~= seq!['\n']);
                assert(old(self).remaining() == seq![m] + self.remaining());
                lemma_token_models_emit(old(tokens)@, m, self.remaining());
                lemma_token_models_push(old(tokens)@, m);
            }
        } else if c == ' ' || c == '\t' {
            self.position = self.position + 1;
            self.column = self.column + 1;
            proof {
                lemma_token_models_append_none(tokens@);
            }
        } else {
            let kind = match c {
                '+' => TokenKind::Plus,
                '-' => TokenKind::Minus,
                '*' => TokenKind::Star,
                '/' => TokenKind::Slash,
                '=' => TokenKind::Equals,
                '(' => TokenKind::LeftParen,
                ')' => TokenKind::RightParen,
                _ => TokenKind::Unknown,
            };
            let mut text: Vec<char> = Vec::new();
            text.push(c);
            let token = Token { kind, text, line: self.line, column: self.column };
            let ghost m = token@;
            tokens.push(token);
            self.position = self.position + 1;
            self.column = self.column + 1;
            proof {
                assert(m.kind == single_char_kind(c));
                assert(m.text =~= seq![c]);
                assert(old(self).remaining() == seq![m] + self.remaining());
                lemma_token_models_emit(old(tokens)@, m, self.remaining());
                lemma_token_models_push(old(tokens)@, m);
            }
        }
    }

    /// Handle the `InNumber` state: consume the maximal run of digits that
    /// starts at the cursor and emit it as one `Number` token.
    pub fn handle_in_number_state(&mut self, tokens: &mut Vec<Token>)
        requires
            old(self).wf(),
            old(self).current_state is InNumber,
        ensures
            final(self).wf(),
            final(self).current_state is Start,
            final(self).symbols@ == old(self).symbols@,
            old(self).position < final(self).position,
            *final(self) == old(self).number_next(),
            token_models(final(tokens)@) == token_models(old(tokens)@) + old(
                self,
            ).number_emitted(),
            token_models(final(tokens)@) + final(self).remaining() == token_models(old(tokens)@)
                + old(self).remaining(),
    {
        let ghost s = self.symbols@;
        let start = self.position;
        let mut text: Vec<char> = Vec::new();
        while self.position < self.symbols.len() && digit_char(self.symbols[self.position])
            invariant
                self.symbols@ == s,
                self.symbols == old(self).symbols,
                s.len() < usize::MAX,
                start <= self.position <= s.len(),
                start == old(self).position,
                self.line == old(self).line,
                self.column == old(self).column,
                self.current_state == old(self).current_state,
                tokens@ == old(tokens)@,
                text@ == s.subrange(start as int, self.position as int),
                digit_run_end(s, start as int) == digit_run_end(s, self.position as int),
            decreases s.len() - self.position,
        {
            text.push(self.symbols[self.position]);
            proof {
                assert(s.subrange(start as int, self.position as int).push(
                    s[self.position as int],
                ) =~= s.subrange(start as int, self.position as int + 1));
            }
            self.position = self.position + 1;
        }
        let ghost end = self.position as int;
        let token = Token { kind: TokenKind::Number, text, line: self.line, column: self.column };
        let ghost m = token@;
        tokens.push(token);
        let advance = self.position - start;
        self.column = self.column + advance;
        self.current_state = State::Start;
        proof {
            assert(end == digit_run_end(s, start as int));
            assert(old(self).remaining() == seq![m] + self.remaining());
            lemma_token_models_emit(old(tokens)@, m, self.remaining());
            lemma_token_models_push(old(tokens)@, m);
        }
    }

    /// Handle the `InVariable` state: consume the maximal run of letters
    /// that starts at the cursor and emit it as one `Identifier` token.
    pub fn handle_in_variable_state(&mut self, tokens: &mut Vec<Token>)
        requires
            old(self).wf(),
            old(self).current_state is InVariable,
        ensures
            final(self).wf(),
            final(self).current_state is Start,
            final(self).symbols@ == old(self).symbols@,
            old(self).position < final(self).position,
            *final(self) == old(self).variable_next(),
            token_models(final(tokens)@) == token_models(old(tokens)@) + old(
                self,
            ).variable_emitted(),
            token_models(final(tokens)@) + final(self).remaining() == token_models(old(tokens)@)
                + old(self).remaining(),
    {
        let ghost s = self.symbols@;
        let start = self.position;
        let mut text: Vec<char> = Vec::new();
        while self.position < self.symbols.len() && letter_char(self.symbols[self.position])
            invariant
                self.symbols@ == s,
                self.symbols == old(self).symbols,
                s.len() < usize::MAX,
                start <= self.position <= s.len(),
                start == old(self).position,
                self.line == old(self).line,
                self.column == old(self).column,
                self.current_state == old(self).current_state,
                tokens@ == old(tokens)@,
                text@ == s.subrange(start as int, self.position as int),
                letter_run_end(s, start as int) == letter_run_end(s, self.position as int),
            decreases s.len() - self.position,
        {
            text.push(self.symbols[self.position]);
            proof {
                assert(s.subrange(start as int, self.position as int).push(
                    s[self.position as int],
                ) =~= s.subrange(start as int, self.position as int + 1));
            }
            self.position = self.position + 1;
        }
        let ghost end = self.position as int;
        let token = Token {
            kind: TokenKind::Identifier,
            text,
            line: self.line,
            column: self.column,
        };
        let ghost m = token@;
        tokens.push(token);
        let advance = self.position - start;
        self.column = self.column + advance;
        self.current_state = State::Start;
        proof {
            assert(end == letter_run_end(s, start as int));
            assert(old(self).remaining() == seq![m] + self.remaining());
            lemma_token_models_emit(old(tokens)@, m, self.remaining());
            lemma_token_models_push(old(tokens)@, m);
        }
    }

    /// Handle the `InComment` state: consume characters from the `#` up to
    /// the next newline, or to the end of the input, and emit the run as one
    /// `Comment` token whose text excludes the newline. The newline that
    /// closes a comment is consumed with it and starts the next line; no
    /// `EndOfLine` token is emitted for it.
    pub fn handle_in_comment_state(&mut self, tokens: &mut Vec<Token>)
        requires
            old(self).wf(),
            old(self).current_state is InComment,
        ensures
            final(self).wf(),
            final(self).current_state is Start,
            final(self).symbols@ == old(self).symbols@,
            old(self).position < final(self).position,
            *final(self) == old(self).comment_next(),
            token_models(final(tokens)@) == token_models(old(tokens)@) + old(
                self,
            ).comment_emitted(),
            token_models(final(tokens)@) + final(self).remaining() == token_models(old(tokens)@)
                + old(self).remaining(),
    {
        let ghost s = self.symbols@;
        let start = self.position;
        let mut text: Vec<char> = Vec::new();
        while self.position < self.symbols.len() && self.symbols[self.position] != '\n'
            invariant
                self.symbols@ == s,
                self.symbols == old(self).symbols,
                s.len() < usize::MAX,
                start <= self.position <= s.len(),
                start == old(self).position,
                self.line == old(self).line,
                self.column == old(self).column,
                self.current_state == old(self).current_state,
                tokens@ == old(tokens)@,
                text@ == s.subrange(start as int, self.position as int),
                comment_run_end(s, start as int) == comment_run_end(s, self.position as int),
            decreases s.len() - self.position,
        {
            text.push(self.symbols[self.position]);
            proof {
                assert(s.subrange(start as int, self.position as int).push(
                    s[self.position as int],
                ) =~= s.subrange(start as int, self.position as int + 1));
            }
            self.position = self.position + 1;
        }
        let ghost end = self.position as int;
        let token = Token { kind: TokenKind::Comment, text, line: self.line, column: self.column };
        let ghost m = token@;
        tokens.push(token);
        if self.position < self.symbols.len() {
            self.position = self.position + 1;
            self.line = self.line + 1;
            self.column = 1;
        } else {
            let advance = self.position - start;
            self.column = self.column + advance;
        }
        self.current_state = State::Start;
        proof {
            assert(end == comment_run_end(s, start as int));
            assert(old(self).remaining() == seq![m] + self.remaining());
            lemma_token_models_emit(old(tokens)@, m, self.remaining());
            lemma_token_models_push(old(tokens)@, m);
        }
    }
}

/// The combined length of the texts of the tokens `tokens`, in characters.
pub open spec fn total_text_len(tokens: Seq<TokenModel>) -> int
    decreases tokens.len(),
{
    if tokens.len() == 0 {
        0
    } else {
        tokens[0].text.len() + total_text_len(tokens.drop_first())
    }
}

/// The number of characters from position `pos` on that the scan drops
/// without placing them in any token's text: skipped blanks, and the
/// newline that closes a comment.
pub open spec fn skipped_from(s: Seq<char>, pos: int) -> int
    decreases s.len() - pos,
        when 0 <= pos <= s.len()
        via skipped_from_decreases
{
    if pos == s.len() {
        0
    } else {
        let c = s[pos];
        if is_digit_char(c) {
            skipped_from(s, digit_run_end(s, pos))
        } else if is_letter_char(c) {
            skipped_from(s, letter_run_end(s, pos))
        } else if c == '#' {
            let end: int = comment_run_end(s, pos);
            if end < s.len() {
                1 + skipped_from(s, end + 1)
            } else {
                skipped_from(s, end)
            }
        } else if is_blank_char(c) {
            1 + skipped_from(s, pos + 1)
        } else {
            skipped_from(s, pos + 1)
        }
    }
}

#[via_fn]
proof fn skipped_from_decreases(s: Seq<char>, pos: int) {
    if 0 <= pos < s.len() {
        lemma_digit_run_end(s, pos);
        lemma_letter_run_end(s, pos);
        lemma_comment_run_end(s, pos);
    }
}

/// The characters that the whole scan of `s` drops: skipped blanks and the
/// newlines that close comments.
pub open spec fn spec_skipped(s: Seq<char>) -> int {
    skipped_from(s, 0)
}

proof fn lemma_total_text_len_cons(m: TokenModel, rest: Seq<TokenModel>)
    ensures
        total_text_len(seq![m] + rest) == m.text.len() + total_text_len(rest),
{
    assert((seq![m] + rest).len() == 1 + rest.len());
    assert((seq![m] + rest)[0] == m);
    assert((seq![m] + rest).drop_first() =~= rest);
}

proof fn lemma_accounting_from(s: Seq<char>, pos: int, line: int, col: int)
    requires
        0 <= pos <= s.len(),
    ensures
        total_text_len(spec_tokenize_from(s, pos, line, col)) + skipped_from(s, pos) == s.len()
            - pos,
    decreases s.len() - pos,
{
    if pos == s.len() {
    } else {
        let c = s[pos];
        if is_digit_char(c) {
            lemma_digit_run_end(s, pos);
            let end: int = digit_run_end(s, pos);
            lemma_accounting_from(s, end, line, col + (end - pos));
            lemma_total_text_len_cons(
                spec_tokenize_from(s, pos, line, col)[0],
                spec_tokenize_from(s, end, line, col + (end - pos)),
            );
        } else if is_letter_char(c) {
            lemma_letter_run_end(s, pos);
            let end: int = letter_run_end(s, pos);
            lemma_accounting_from(s, end, line, col + (end - pos));
            lemma_total_text_len_cons(
                spec_tokenize_from(s, pos, line, col)[0],
                spec_tokenize_from(s, end, line, col + (end - pos)),
            );
        } else if c == '#' {
            lemma_comment_run_end(s, pos);
            let end: int = comment_run_end(s, pos);
            if end < s.len() {
                lemma_accounting_from(s, end + 1, line + 1, 1);
                lemma_total_text_len_cons(
                    spec_tokenize_from(s, pos, line, col)[0],
                    spec_tokenize_from(s, end + 1, line + 1, 1),
                );
            } else {
                lemma_accounting_from(s, end, line, col + (end - pos));
                lemma_total_text_len_cons(
                    spec_tokenize_from(s, pos, line, col)[0],
                    spec_tokenize_from(s, end, line, col + (end - pos)),
                );
            }
        } else if c == '\n' {
            lemma_accounting_from(s, pos + 1, line + 1, 1);
            lemma_total_text_len_cons(
                spec_tokenize_from(s, pos, line, col)[0],
                spec_tokenize_from(s, pos + 1, line + 1, 1),
            );
        } else if is_blank_char(c) {
            lemma_accounting_from(s, pos + 1, line, col + 1);
        } else {
            lemma_accounting_from(s, pos + 1, line, col + 1);
            lemma_total_text_len_cons(
                spec_tokenize_from(s, pos, line, col)[0],
                spec_tokenize_from(s, pos + 1, line, col + 1),
            );
        }
    }
}

/// Every character of the input is accounted for: the lengths of all token
/// texts, plus the characters the scan skipped (blanks, and the newline
/// that closes each comment), add up to the length of the input.
pub proof fn lemma_tokenize_accounts_for_input(s: Seq<char>)
    ensures
        total_text_len(spec_tokenize(s)) + spec_skipped(s) == s.len(),
{
    lemma_accounting_from(s, 0, 0, 1);
}

/// Tokenizing an empty input yields an empty token sequence.
pub proof fn lemma_tokenize_empty(s: Seq<char>)
    requires
        s.len() == 0,
    ensures
        spec_tokenize(s) == Seq::<TokenModel>::empty(),
{
}

/// Token positions are ordered as the scan advances: line indices never
/// decrease, and two tokens on the same line have strictly increasing
/// columns.
pub open spec fn positions_ordered(tokens: Seq<TokenModel>) -> bool {
    forall|i: int, j: int|
        0 <= i < j < tokens.len() ==> (tokens[i].line < tokens[j].line || (tokens[i].line
            == tokens[j].line && tokens[i].column < tokens[j].column))
}

/// Every token in `tokens` begins at or after line `line`, column `col`.
pub open spec fn all_at_or_after(tokens: Seq<TokenModel>, line: int, col: int) -> bool {
    forall|k: int|
        0 <= k < tokens.len() ==> (tokens[k].line > line || (tokens[k].line == line
            && tokens[k].column >= col))
}

proof fn lemma_positions_cons(m: TokenModel, rest: Seq<TokenModel>, line2: int, col2: int)
    requires
        positions_ordered(rest),
        all_at_or_after(rest, line2, col2),
        line2 > m.line || (line2 == m.line && col2 > m.column),
    ensures
        positions_ordered(seq![m] + rest),
        all_at_or_after(seq![m] + rest, m.line, m.column),
{
    let full = seq![m] + rest;
    assert forall|i: int, j: int| 0 <= i < j < full.len() implies (full[i].line < full[j].line || (
    full[i].line == full[j].line && full[i].column < full[j].column)) by {
        assert(full[j] == rest[j - 1]);
        assert(rest[j - 1].line > line2 || (rest[j - 1].line == line2 && rest[j - 1].column
            >= col2));
        if i == 0 {
            assert(full[0] == m);
        } else {
            assert(full[i] == rest[i - 1]);
        }
    }
    assert forall|k: int| 0 <= k < full.len() implies (full[k].line > m.line || (full[k].line
        == m.line && full[k].column >= m.column)) by {
        if k == 0 {
            assert(full[0] == m);
        } else {
            assert(full[k] == rest[k - 1]);
            assert(rest[k - 1].line > line2 || (rest[k - 1].line == line2 && rest[k - 1].column
                >= col2));
        }
    }
}

proof fn lemma_positions_from(s: Seq<char>, pos: int, line: int, col: int)
    requires
        0 <= pos <= s.len(),
    ensures
        positions_ordered(spec_tokenize_from(s, pos, line, col)),
        all_at_or_after(spec_tokenize_from(s, pos, line, col), line, col),
    decreases s.len() - pos,
{
    if pos == s.len() {
    } else {
        let c = s[pos];
        if is_digit_char(c) {
            lemma_digit_run_end(s, pos);
            let end: int = digit_run_end(s, pos);
            lemma_positions_from(s, end, line, col + (end - pos));
            lemma_positions_cons(
                spec_tokenize_from(s, pos, line, col)[0],
                spec_tokenize_from(s, end, line, col + (end - pos)),
                line,
                col + (end - pos),
            );
        } else if is_letter_char(c) {
            lemma_letter_run_end(s, pos);
            let end: int = letter_run_end(s, pos);
            lemma_positions_from(s, end, line, col + (end - pos));
            lemma_positions_cons(
                spec_tokenize_from(s, pos, line, col)[0],
                spec_tokenize_from(s, end, line, col + (end - pos)),
                line,
                col + (end - pos),
            );
        } else if c == '#' {
            lemma_comment_run_end(s, pos);
            let end: int = comment_run_end(s, pos);
            if end < s.len() {
                lemma_positions_from(s, end + 1, line + 1, 1);
                lemma_positions_cons(
                    spec_tokenize_from(s, pos, line, col)[0],
                    spec_tokenize_from(s, end + 1, line + 1, 1),
                    line + 1,
                    1,
                );
            } else {
                lemma_positions_from(s, end, line, col + (end - pos));
                lemma_positions_cons(
                    spec_tokenize_from(s, pos, line, col)[0],
                    spec_tokenize_from(s, end, line, col + (end - pos)),
                    line,
                    col + (end - pos),
                );
            }
        } else if c == '\n' {
            lemma_positions_from(s, pos + 1, line + 1, 1);
            lemma_positions_cons(
                spec_tokenize_from(s, pos, line, col)[0],
                spec_tokenize_from(s, pos + 1, line + 1, 1),
                line + 1,
                1,
            );
        } else if is_blank_char(c) {
            lemma_positions_from(s, pos + 1, line, col + 1);
        } else {
            lemma_positions_from(s, pos + 1, line, col + 1);
            lemma_positions_cons(
                spec_tokenize_from(s, pos, line, col)[0],
                spec_tokenize_from(s, pos + 1, line, col + 1),
                line,
                col + 1,
            );
        }
    }
}

/// Across the whole output of a scan, line indices never decrease, and
/// within one line the columns of the tokens strictly increase.
pub proof fn lemma_tokenize_positions_ordered(s: Seq<char>)
    ensures
        positions_ordered(spec_tokenize(s)),
{
    lemma_positions_from(s, 0, 0, 1);
}

/// The scan is deterministic: two token sequences obtained from the same
/// input, by any two scanners, are identical.
pub proof fn lemma_tokenize_deterministic(
    s: Seq<char>,
    first: Seq<TokenModel>,
    second: Seq<TokenModel>,
)
    requires
        first == spec_tokenize(s),
        second == spec_tokenize(s),
    ensures
        first == second,
{
}

/// Pushing one token appends exactly its model: the models of `before` with
/// `t` pushed are the models of `before` followed by `m` alone.
proof fn lemma_token_models_push(before: Seq<Token>, m: TokenModel)
    ensures
        forall|t: Token|
            t@ == m ==> token_models(before.push(t)) == token_models(before) + seq![m],
{
    assert forall|t: Token| t@ == m implies token_models(before.push(t)) == token_models(before)
        + seq![m] by {
        assert(token_models(before.push(t)) =~= token_models(before) + seq![m]);
    }
}

/// A step that emits nothing leaves the emitted models as they were.
proof fn lemma_token_models_append_none(tokens: Seq<Token>)
    ensures
        token_models(tokens) == token_models(tokens) + Seq::<TokenModel>::empty(),
{
    assert(token_models(tokens) =~= token_models(tokens) + Seq::<TokenModel>::empty());
}

/// Appending to the emitted tokens commutes with prepending to the tokens
/// still to come: pushing a token whose model is `m` and then scanning the
/// rest is the same token sequence as scanning from before the token.
proof fn lemma_token_models_emit(before: Seq<Token>, m: TokenModel, rest: Seq<TokenModel>)
    ensures
        forall|t: Token|
            t@ == m ==> token_models(before.push(t)) + rest == token_models(before) + (seq![m]
                + rest),
{
    assert forall|t: Token| t@ == m implies token_models(before.push(t)) + rest == token_models(
        before,
    ) + (seq![m] + rest) by {
        assert(token_models(before.push(t)) + rest =~= token_models(before) + (seq![m] + rest));
    }
}

} // verus!
