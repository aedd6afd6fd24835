use vstd::prelude::*;
use vstd::string::StrSliceExecFns;
use crate::error::{ErrorView, EvalError, Expected};
use crate::interrupt::{admits, checkpoint, Interrupt};
use crate::ops::BinaryOp;
use crate::text::is_digit;

verus! {

/// A token of the source text. A number, a text or a name holds no
/// characters of its own: they are those of the source between the token's
/// bounds.
#[derive(Clone, Copy, Debug, PartialEq, Eq, Structural)]
pub enum Token {
    /// A number literal: decimal digits.
    Number,
    /// A text literal: `"`, any characters but `"`, and `"`.
    Text,
    /// A name: a letter or `_`, then letters, digits and `_`.
    Name,
    /// The word `true`.
    True,
    /// The word `false`.
    False,
    /// The word `null`.
    Null,
    /// A binary operator; `-` is also the sign of a negation.
    Binary(BinaryOp),
    /// `!`
    Bang,
    /// `?`
    Question,
    /// `:`
    Colon,
    /// `,`
    Comma,
    /// `(`
    OpenParen,
    /// `)`
    CloseParen,
    /// `[`
    OpenBracket,
    /// `]`
    CloseBracket,
    /// The end of the source.
    End,
    /// No token begins here; what would have been one is named.
    Invalid(Expected),
}

/// A token and where it stands: `position` is the index of its first
/// character, `end` the index after its last one.
#[derive(Clone, Copy, Debug, PartialEq, Eq, Structural)]
pub struct Lexeme {
    pub token: Token,
    pub position: usize,
    pub end: usize,
}

/// A class of characters.
#[derive(Clone, Copy, Debug, PartialEq, Eq, Structural)]
pub enum Class {
    /// A space, a tab, a line feed or a carriage return.
    Blank,
    /// `0` to `9`.
    Digit,
    /// An ASCII letter, a digit or `_`.
    NamePart,
    /// Any character but `"`.
    TextPart,
}

/// Whether `c` can begin a name: an ASCII letter or `_`.
pub open spec fn is_name_start(c: char) -> bool {
    ('a' <= c <= 'z') || ('A' <= c <= 'Z') || c == '_'
}

impl Class {
    /// Whether `c` belongs to the class.
    pub open spec fn holds(self, c: char) -> bool {
        match self {
            Class::Blank => c == ' ' || c == '\t' || c == '\n' || c == '\r',
            Class::Digit => is_digit(c),
            Class::NamePart => is_name_start(c) || is_digit(c),
            Class::TextPart => c != '"',
        }
    }

    /// Whether `c` belongs to the class.
    pub fn test(self, c: char) -> (b: bool)
        ensures
            b == self.holds(c),
    {
        match self {
            Class::Blank => c == ' ' || c == '\t' || c == '\n' || c == '\r',
            Class::Digit => '0' <= c && c <= '9',
            Class::NamePart => ('a' <= c && c <= 'z') || ('A' <= c && c <= 'Z') || c == '_' || (
            '0' <= c && c <= '9'),
            Class::TextPart => c != '"',
        }
    }
}

/// The end of the longest run of characters of `class` that begins at
/// `from`.
pub open spec fn run_end(s: Seq<char>, from: int, class: Class) -> int
    decreases s.len() - from,
{
    if 0 <= from < s.len() && class.holds(s[from]) {
        run_end(s, from + 1, class)
    } else {
        from
    }
}

/// What a run's end is: every character before it belongs to the class, and
/// the one at it, if there is one, does not.
pub proof fn lemma_run_end(s: Seq<char>, from: int, class: Class)
    requires
        0 <= from <= s.len(),
    ensures
        from <= run_end(s, from, class) <= s.len(),
        forall|i: int| from <= i < run_end(s, from, class) ==> class.holds(s[i]),
        run_end(s, from, class) < s.len() ==> !class.holds(s[run_end(s, from, class)]),
    decreases s.len() - from,
{
    if from < s.len() && class.holds(s[from]) {
        lemma_run_end(s, from + 1, class);
    }
}

/// A run that begins inside another one of the same class ends where that
/// one ends.
pub proof fn lemma_run_end_within(s: Seq<char>, from: int, middle: int, class: Class)
    requires
        0 <= from <= middle <= s.len(),
        forall|i: int| from <= i < middle ==> class.holds(s[i]),
    ensures
        run_end(s, from, class) == run_end(s, middle, class),
    decreases middle - from,
{
    if from < middle {
        lemma_run_end_within(s, from + 1, middle, class);
    }
}

/// The token that a word spells.
pub open spec fn word(w: Seq<char>) -> Token {
    if w == "true"@ {
        Token::True
    } else if w == "false"@ {
        Token::False
    } else if w == "null"@ {
        Token::Null
    } else {
        Token::Name
    }
}

/// The token that the two characters `c` and `d` spell together, if any.
pub open spec fn pair_token(c: char, d: char) -> Option<Token> {
    if c == '=' && d == '=' {
        Some(Token::Binary(BinaryOp::Equal))
    } else if c == '!' && d == '=' {
        Some(Token::Binary(BinaryOp::NotEqual))
    } else if c == '<' && d == '=' {
        Some(Token::Binary(BinaryOp::LessEqual))
    } else if c == '>' && d == '=' {
        Some(Token::Binary(BinaryOp::GreaterEqual))
    } else if c == '&' && d == '&' {
        Some(Token::Binary(BinaryOp::And))
    } else if c == '|' && d == '|' {
        Some(Token::Binary(BinaryOp::Or))
    } else {
        None
    }
}

/// The token that the character `c` spells alone.
pub open spec fn single_token(c: char) -> Token {
    if c == '+' {
        Token::Binary(BinaryOp::Add)
    } else if c == '-' {
        Token::Binary(BinaryOp::Subtract)
    } else if c == '*' {
        Token::Binary(BinaryOp::Multiply)
    } else if c == '/' {
        Token::Binary(BinaryOp::Divide)
    } else if c == '%' {
        Token::Binary(BinaryOp::Remainder)
    } else if c == '<' {
        Token::Binary(BinaryOp::Less)
    } else if c == '>' {
        Token::Binary(BinaryOp::Greater)
    } else if c == '!' {
        Token::Bang
    } else if c == '?' {
        Token::Question
    } else if c == ':' {
        Token::Colon
    } else if c == ',' {
        Token::Comma
    } else if c == '(' {
        Token::OpenParen
    } else if c == ')' {
        Token::CloseParen
    } else if c == '[' {
        Token::OpenBracket
    } else if c == ']' {
        Token::CloseBracket
    } else {
        Token::Invalid(Expected::Character)
    }
}

/// The token that begins at `p`, which is no blank. The longest match wins.
pub open spec fn token_at(s: Seq<char>, p: int) -> Lexeme {
    if !(0 <= p < s.len()) {
        Lexeme { token: Token::End, position: p as usize, end: p as usize }
    } else if is_digit(s[p]) {
        Lexeme {
            token: Token::Number,
            position: p as usize,
            end: run_end(s, p, Class::Digit) as usize,
        }
    } else if is_name_start(s[p]) {
        let end = run_end(s, p, Class::NamePart);
        Lexeme { token: word(s.subrange(p, end)), position: p as usize, end: end as usize }
    } else if s[p] == '"' {
        let quote = run_end(s, p + 1, Class::TextPart);
        if quote < s.len() {
            Lexeme { token: Token::Text, position: p as usize, end: (quote + 1) as usize }
        } else {
            Lexeme {
                token: Token::Invalid(Expected::CloseQuote),
                position: quote as usize,
                end: quote as usize,
            }
        }
    } else if p + 1 < s.len() && pair_token(s[p], s[p + 1]) is Some {
        Lexeme {
            token: pair_token(s[p], s[p + 1])->Some_0,
            position: p as usize,
            end: (p + 2) as usize,
        }
    } else {
        Lexeme { token: single_token(s[p]), position: p as usize, end: (p + 1) as usize }
    }
}

impl Token {
    /// Whether the token ends a sequence of tokens.
    pub open spec fn is_last(self) -> bool {
        self is End || self is Invalid
    }

    /// Whether the token ends a sequence of tokens.
    pub fn last(self) -> (b: bool)
        ensures
            b == self.is_last(),
    {
        match self {
            Token::End => true,
            Token::Invalid(_) => true,
            _ => false,
        }
    }
}

/// The tokens of `s` from `from` on, blanks skipped. The last one is
/// `End` or `Invalid`, and no other is.
pub open spec fn lex(s: Seq<char>, from: int) -> Seq<Lexeme>
    decreases s.len() - from,
{
    let lexeme = token_at(s, run_end(s, from, Class::Blank));
    if lexeme.token.is_last() || !(from < lexeme.end <= s.len()) {
        seq![lexeme]
    } else {
        seq![lexeme] + lex(s, lexeme.end as int)
    }
}

fn run(chars: &Vec<char>, from: usize, class: Class) -> (end: usize)
    requires
        from <= chars.len(),
    ensures
        end == run_end(chars@, from as int, class),
        from <= end <= chars.len(),
{
    let mut i: usize = from;
    while i < chars.len() && class.test(chars[i])
        invariant
            from <= i <= chars.len(),
            forall|j: int| from <= j < i ==> class.holds(chars@[j]),
        decreases chars.len() - i,
    {
        i += 1;
    }
    proof {
        lemma_run_end_within(chars@, from as int, i as int, class);
    }
    i
}

pub(crate) fn matches_word(chars: &Vec<char>, from: usize, to: usize, word: &str) -> (b: bool)
    requires
        from <= to <= chars.len(),
    ensures
        b == (chars@.subrange(from as int, to as int) == word@),
{
    let length = word.unicode_len();
    if to - from != length {
        return false;
    }
    let mut i: usize = 0;
    while i < length
        invariant
            i <= length,
            length == word@.len(),
            from + length == to <= chars.len(),
            forall|j: int| 0 <= j < i ==> chars@[from + j] == word@[j],
        decreases length - i,
    {
        if chars[from + i] != word.get_char(i) {
            assert(chars@.subrange(from as int, to as int)[i as int] != word@[i as int]);
            return false;
        }
        i += 1;
    }
    assert(chars@.subrange(from as int, to as int) =~= word@);
    true
}

fn pair(c: char, d: char) -> (token: Option<Token>)
    ensures
        token == pair_token(c, d),
{
    if c == '=' && d == '=' {
        Some(Token::Binary(BinaryOp::Equal))
    } else if c == '!' && d == '=' {
        Some(Token::Binary(BinaryOp::NotEqual))
    } else if c == '<' && d == '=' {
        Some(Token::Binary(BinaryOp::LessEqual))
    } else if c == '>' && d == '=' {
        Some(Token::Binary(BinaryOp::GreaterEqual))
    } else if c == '&' && d == '&' {
        Some(Token::Binary(BinaryOp::And))
    } else if c == '|' && d == '|' {
        Some(Token::Binary(BinaryOp::Or))
    } else {
        None
    }
}

fn single(c: char) -> (token: Token)
    ensures
        token == single_token(c),
{
    if c == '+' {
        Token::Binary(BinaryOp::Add)
    } else if c == '-' {
        Token::Binary(BinaryOp::Subtract)
    } else if c == '*' {
        Token::Binary(BinaryOp::Multiply)
    } else if c == '/' {
        Token::Binary(BinaryOp::Divide)
    } else if c == '%' {
        Token::Binary(BinaryOp::Remainder)
    } else if c == '<' {
        Token::Binary(BinaryOp::Less)
    } else if c == '>' {
        Token::Binary(BinaryOp::Greater)
    } else if c == '!' {
        Token::Bang
    } else if c == '?' {
        Token::Question
    } else if c == ':' {
        Token::Colon
    } else if c == ',' {
        Token::Comma
    } else if c == '(' {
        Token::OpenParen
    } else if c == ')' {
        Token::CloseParen
    } else if c == '[' {
        Token::OpenBracket
    } else if c == ']' {
        Token::CloseBracket
    } else {
        Token::Invalid(Expected::Character)
    }
}

impl Lexeme {
    /// Whether the token's bounds lie in a source of `length` characters,
    /// its end after its beginning unless it is the last one.
    pub open spec fn fits(self, length: nat) -> bool {
        &&& self.position <= self.end <= length
        &&& !self.token.is_last() ==> self.position < self.end
        &&& self.token is Text ==> self.position + 2 <= self.end
    }

    /// Whether nothing but digits stands between the token's bounds, where
    /// it is a number.
    pub open spec fn written(self, s: Seq<char>) -> bool {
        self.token is Number ==> forall|p: int|
            self.position <= p < self.end ==> #[trigger] is_digit(s[p])
    }
}

/// The token that begins at `p`; the end where `p` lies outside the
/// source.
pub fn scan(chars: &Vec<char>, p: usize) -> (lexeme: Lexeme)
    ensures
        lexeme == token_at(chars@, p as int),
        p <= lexeme.position,
        p <= chars.len() ==> lexeme.fits(chars@.len()) && lexeme.written(chars@),
{
    if p >= chars.len() {
        return Lexeme { token: Token::End, position: p, end: p };
    }
    let c = chars[p];
    if Class::Digit.test(c) {
        let end = run(chars, p, Class::Digit);
        proof {
            lemma_run_end(chars@, p as int, Class::Digit);
            lemma_run_end(chars@, p + 1, Class::Digit);
        }
        Lexeme { token: Token::Number, position: p, end }
    } else if ('a' <= c && c <= 'z') || ('A' <= c && c <= 'Z') || c == '_' {
        let end = run(chars, p, Class::NamePart);
        proof {
            lemma_run_end(chars@, p + 1, Class::NamePart);
        }
        let token = if matches_word(chars, p, end, "true") {
            Token::True
        } else if matches_word(chars, p, end, "false") {
            Token::False
        } else if matches_word(chars, p, end, "null") {
            Token::Null
        } else {
            Token::Name
        };
        Lexeme { token, position: p, end }
    } else if c == '"' {
        let quote = run(chars, p + 1, Class::TextPart);
        if quote < chars.len() {
            Lexeme { token: Token::Text, position: p, end: quote + 1 }
        } else {
            Lexeme { token: Token::Invalid(Expected::CloseQuote), position: quote, end: quote }
        }
    } else {
        if p + 1 < chars.len() {
            match pair(c, chars[p + 1]) {
                Some(token) => {
                    return Lexeme { token, position: p, end: p + 2 };
                },
                None => {},
            }
        }
        Lexeme { token: single(c), position: p, end: p + 1 }
    }
}

/// What a tokenization gives: the tokens, or `Interrupted`.
pub open spec fn scanned(r: Result<Vec<Lexeme>, EvalError>) -> Result<Seq<Lexeme>, ErrorView> {
    match r {
        Ok(lexemes) => Ok(lexemes@),
        Err(error) => Err(error@),
    }
}

/// The tokens of `chars`. The signal is polled before each token.
pub fn tokenize<I: Interrupt>(chars: &Vec<char>, signal: &I) -> (r: Result<
    Vec<Lexeme>,
    EvalError,
>)
    ensures
        admits(
            signal.settled(),
            scanned(r),
            Ok(lex(chars@, 0)),
            Err(ErrorView::Interrupted),
        ),
        r matches Err(error) ==> error == EvalError::Interrupted,
{
    match checkpoint(signal.is_interrupted()) {
        Ok(()) => {},
        Err(error) => {
            return Err(error);
        },
    }
    let mut lexemes: Vec<Lexeme> = Vec::new();
    let mut from: usize = 0;
    loop
        invariant
            from <= chars.len(),
            lexemes@ + lex(chars@, from as int) == lex(chars@, 0),
            signal.settled() != Some(true),
        decreases chars.len() - from,
    {
        let start = run(chars, from, Class::Blank);
        let lexeme = scan(chars, start);
        let ghost before = lexemes@;
        lexemes.push(lexeme);
        if lexeme.token.last() {
            assert(lexemes@ =~= before + lex(chars@, from as int));
            return Ok(lexemes);
        }
        assert(lexemes@ + lex(chars@, lexeme.end as int) =~= before + lex(chars@, from as int));
        from = lexeme.end;
        match checkpoint(signal.is_interrupted()) {
            Ok(()) => {},
            Err(error) => {
                return Err(error);
            },
        }
    }
}

/// Whether `t` is shaped as the tokens of the source `s` are: the last
/// one is `End` or `Invalid`, no other is, and each lies in the source.
pub open spec fn well_formed(s: Seq<char>, t: Seq<Lexeme>) -> bool {
    &&& t.len() > 0
    &&& forall|i: int| 0 <= i < t.len() ==> ((#[trigger] t[i]).token.is_last() <==> i == t.len() - 1)
    &&& forall|i: int| 0 <= i < t.len() ==> (#[trigger] t[i]).fits(s.len())
    &&& forall|i: int| 0 <= i < t.len() ==> (#[trigger] t[i]).written(s)
}

/// A token lies in its source.
pub proof fn lemma_token_at_fits(s: Seq<char>, p: int)
    requires
        0 <= p <= s.len() <= usize::MAX,
    ensures
        token_at(s, p).fits(s.len()),
{
    if p < s.len() {
        lemma_run_end(s, p, Class::Digit);
        lemma_run_end(s, p + 1, Class::Digit);
        lemma_run_end(s, p, Class::NamePart);
        lemma_run_end(s, p + 1, Class::NamePart);
        lemma_run_end(s, p + 1, Class::TextPart);
    }
}

/// A number token spans digits.
pub proof fn lemma_token_at_written(s: Seq<char>, p: int)
    requires
        0 <= p <= s.len() <= usize::MAX,
    ensures
        token_at(s, p).written(s),
{
    if p < s.len() {
        lemma_run_end(s, p, Class::Digit);
        if is_digit(s[p]) {
            let end = run_end(s, p, Class::Digit);
            assert forall|q: int| p <= q < end implies #[trigger] is_digit(s[q]) by {
                assert(Class::Digit.holds(s[q]));
            }
        } else if is_name_start(s[p]) {
            assert(!(word(s.subrange(p, run_end(s, p, Class::NamePart))) is Number));
        } else if s[p] == '"' {
        } else if p + 1 < s.len() && pair_token(s[p], s[p + 1]) is Some {
        } else {
        }
    }
}

/// The tokens of a source are well formed.
pub proof fn lemma_lex_well_formed(s: Seq<char>, from: int)
    requires
        0 <= from <= s.len() <= usize::MAX,
    ensures
        well_formed(s, lex(s, from)),
    decreases s.len() - from,
{
    let start = run_end(s, from, Class::Blank);
    lemma_run_end(s, from, Class::Blank);
    let lexeme = token_at(s, start);
    lemma_token_at_fits(s, start);
    lemma_token_at_written(s, start);
    if lexeme.token.is_last() || !(from < lexeme.end <= s.len()) {
        assert(lex(s, from) =~= seq![lexeme]);
    } else {
        let rest = lex(s, lexeme.end as int);
        lemma_lex_well_formed(s, lexeme.end as int);
        let all = seq![lexeme] + rest;
        assert(lex(s, from) =~= all);
        assert forall|i: int| 0 <= i < all.len() implies ((#[trigger] all[i]).token.is_last() <==> i
            == all.len() - 1) && all[i].fits(s.len()) && all[i].written(s) by {
            if i > 0 {
                assert(all[i] == rest[i - 1]);
            }
        }
    }
}

/// Whether only blanks stand in `s[from..to]`.
#[verifier::opaque]
pub open spec fn blank_between(s: Seq<char>, from: int, to: int) -> bool {
    forall|p: int| from <= p < to ==> Class::Blank.holds(#[trigger] s[p])
}

/// Whether the token begins at its position. One does not: a text without
/// its closing quote is reported where the quote is missing.
pub open spec fn placed(lexeme: Lexeme) -> bool {
    lexeme.token != Token::Invalid(Expected::CloseQuote)
}

/// Whether the token at index `i` is the one that begins at its position,
/// and the next one stands after it with only blanks between the two.
pub open spec fn apart(s: Seq<char>, t: Seq<Lexeme>, i: int) -> bool {
    &&& t[i] == token_at(s, t[i].position as int)
    &&& t[i].end <= t[i + 1].position
    &&& placed(t[i + 1]) ==> blank_between(s, t[i].end as int, t[i + 1].position as int)
}

/// Whether the tokens `t` stand in the order of the source from `from` on
/// without overlapping, with only blanks before and between them, each but
/// the last being the token that begins at its position.
pub open spec fn in_order(s: Seq<char>, t: Seq<Lexeme>, from: int) -> bool {
    &&& t.len() > 0
    &&& from <= t[0].position
    &&& placed(t[0]) ==> blank_between(s, from, t[0].position as int)
    &&& forall|i: int| 0 <= i < t.len() - 1 ==> #[trigger] apart(s, t, i)
}

/// A token stands where it was read, or at the end of the source where it
/// is a text without its closing quote.
pub proof fn lemma_token_at_position(s: Seq<char>, p: int)
    requires
        0 <= p <= s.len() <= usize::MAX,
    ensures
        p <= token_at(s, p).position,
        placed(token_at(s, p)) ==> token_at(s, p).position == p,
{
    if p < s.len() && s[p] == '"' {
        lemma_run_end(s, p + 1, Class::TextPart);
    }
}

/// The tokens of a source stand in order.
pub proof fn lemma_lex_in_order(s: Seq<char>, from: int)
    requires
        0 <= from <= s.len() <= usize::MAX,
    ensures
        in_order(s, lex(s, from), from),
    decreases s.len() - from,
{
    let start = run_end(s, from, Class::Blank);
    let lexeme = token_at(s, start);
    assert(from <= start <= s.len() && blank_between(s, from, start)) by {
        reveal(blank_between);
        lemma_run_end(s, from, Class::Blank);
    }
    lemma_token_at_position(s, start);
    if lexeme.token.is_last() || !(from < lexeme.end <= s.len()) {
        assert(lex(s, from) =~= seq![lexeme]);
    } else {
        let rest = lex(s, lexeme.end as int);
        lemma_lex_in_order(s, lexeme.end as int);
        let all = seq![lexeme] + rest;
        assert(lex(s, from) =~= all);
        assert(all[0] == lexeme);
        assert forall|i: int| 0 <= i < all.len() - 1 implies #[trigger] apart(s, all, i) by {
            assert(all[i + 1] == rest[i]);
            if i > 0 {
                assert(all[i] == rest[i - 1]);
                assert(apart(s, rest, i - 1));
            }
        }
    }
}

} // verus!
