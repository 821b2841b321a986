//! The tokens of the surface syntax and how a text falls into them.

use vstd::prelude::*;
use vstd::string::StrSliceExecFns;

verus! {

/// The words of the language.
#[derive(Debug, Clone, Copy, PartialEq, Eq, Structural)]
pub enum Keyword {
    Given,
    Parameters,
    Define,
    As,
    Must,
    Not,
    Be,
    Equal,
    To,
    Greater,
    Less,
    Than,
    Or,
    And,
    One,
    Of,
}

/// A token of the surface syntax.
#[derive(Debug, PartialEq)]
pub enum Token {
    /// `$name`, without the `$`
    Identifier(String),
    /// A decimal number
    Integer(u64),
    /// A string in double quotes, without the quotes
    Text(String),
    /// A word of the language
    Word(Keyword),
    /// `[`
    Open,
    /// `]`
    Close,
    /// `,`
    Comma,
}

/// A token and the place of its first character in the text.
#[derive(Debug, PartialEq)]
pub struct Lexeme {
    pub token: Token,
    pub position: usize,
}

/// What a token says.
pub ghost enum TokenView {
    Identifier(Seq<char>),
    Integer(u64),
    Text(Seq<char>),
    Word(Keyword),
    Open,
    Close,
    Comma,
}

/// What a lexeme says.
pub ghost struct LexemeView {
    pub token: TokenView,
    pub position: nat,
}

impl View for Token {
    type V = TokenView;

    open spec fn view(&self) -> TokenView {
        match self {
            Token::Identifier(name) => TokenView::Identifier(name@),
            Token::Integer(n) => TokenView::Integer(*n),
            Token::Text(s) => TokenView::Text(s@),
            Token::Word(k) => TokenView::Word(*k),
            Token::Open => TokenView::Open,
            Token::Close => TokenView::Close,
            Token::Comma => TokenView::Comma,
        }
    }
}

impl View for Lexeme {
    type V = LexemeView;

    open spec fn view(&self) -> LexemeView {
        LexemeView { token: self.token@, position: self.position as nat }
    }
}

/// What a sequence of lexemes says.
pub open spec fn lexemes(l: Seq<Lexeme>) -> Seq<LexemeView> {
    l.map_values(|x: Lexeme| x@)
}

/// What the parser wanted where it stopped.
#[derive(Debug, Clone, Copy, PartialEq)]
pub enum Expected {
    /// A token: the character starts none, or the token does not end as it
    /// should, or the number does not fit 64 bits.
    Token,
    /// This word of the language
    Word(Keyword),
    /// An identifier
    Identifier,
    /// A number, a string or a list of them
    Literal,
    /// An identifier or a literal
    Subject,
    /// One of the comparator phrases
    Comparator,
    /// `,` or `]`
    Separator,
}

/// A parse error, positioned at the offending token.
#[derive(Debug, Clone, Copy, PartialEq)]
pub struct ParseError {
    /// The place of the token's first character in the text, counted in
    /// characters; the length of the text where the text ended too early.
    pub position: usize,
    /// What was wanted there.
    pub expected: Expected,
}

/// What a parse error says.
pub ghost struct Fault {
    pub position: int,
    pub expected: Expected,
}

impl View for ParseError {
    type V = Fault;

    open spec fn view(&self) -> Fault {
        Fault { position: self.position as int, expected: self.expected }
    }
}

/// The classes of characters that a token is a run of.
#[derive(Debug, Clone, Copy, PartialEq)]
pub enum Class {
    /// `0` to `9`
    Digit,
    /// `a` to `z` and `A` to `Z`
    Letter,
    /// A letter, a digit or `_`
    Name,
    /// Anything but `"`
    Unquoted,
}

pub open spec fn is_space(c: char) -> bool {
    c == ' ' || c == '\t' || c == '\n' || c == '\r'
}

pub open spec fn is_digit(c: char) -> bool {
    '0' <= c <= '9'
}

pub open spec fn is_letter(c: char) -> bool {
    'a' <= c <= 'z' || 'A' <= c <= 'Z'
}

impl Class {
    /// Whether the character is of the class.
    pub open spec fn holds(self, c: char) -> bool {
        match self {
            Class::Digit => is_digit(c),
            Class::Letter => is_letter(c),
            Class::Name => is_letter(c) || is_digit(c) || c == '_',
            Class::Unquoted => c != '"',
        }
    }

    fn test(self, c: char) -> (r: bool)
        ensures
            r == self.holds(c),
    {
        match self {
            Class::Digit => '0' <= c && c <= '9',
            Class::Letter => ('a' <= c && c <= 'z') || ('A' <= c && c <= 'Z'),
            Class::Name => ('a' <= c && c <= 'z') || ('A' <= c && c <= 'Z') || ('0' <= c && c
                <= '9') || c == '_',
            Class::Unquoted => c != '"',
        }
    }
}

/// The end of the longest run of characters of a class that starts at
/// `from`.
pub open spec fn run_end(text: Seq<char>, from: int, class: Class) -> int
    decreases text.len() - from,
{
    if 0 <= from < text.len() && class.holds(text[from]) {
        run_end(text, from + 1, class)
    } else {
        from
    }
}

fn scan(chars: &Vec<char>, from: usize, class: Class) -> (end: usize)
    requires
        from <= chars.len(),
    ensures
        end == run_end(chars@, from as int, class),
        from <= end <= chars.len(),
{
    let mut end: usize = from;
    while end < chars.len() && class.test(chars[end])
        invariant
            from <= end <= chars.len(),
            run_end(chars@, from as int, class) == run_end(chars@, end as int, class),
        decreases chars.len() - end,
    {
        end += 1;
    }
    end
}

/// The bounds of a run: it starts at `from` and ends within the text.
pub proof fn lemma_run_end_bounds(text: Seq<char>, from: int, class: Class)
    requires
        0 <= from <= text.len(),
    ensures
        from <= run_end(text, from, class) <= text.len(),
    decreases text.len() - from,
{
    if from < text.len() && class.holds(text[from]) {
        lemma_run_end_bounds(text, from + 1, class);
    }
}

/// The number that a run of digits writes in base ten.
pub open spec fn decimal(digits: Seq<char>) -> nat
    decreases digits.len(),
{
    if digits.len() == 0 {
        0
    } else {
        decimal(digits.drop_last()) * 10 + (digits.last() as u32 - '0' as u32) as nat
    }
}

/// The word of the language that is spelled `word`, if there is one.
pub open spec fn keyword_of(word: Seq<char>) -> Option<Keyword> {
    if word == "given"@ {
        Some(Keyword::Given)
    } else if word == "parameters"@ {
        Some(Keyword::Parameters)
    } else if word == "define"@ {
        Some(Keyword::Define)
    } else if word == "as"@ {
        Some(Keyword::As)
    } else if word == "must"@ {
        Some(Keyword::Must)
    } else if word == "not"@ {
        Some(Keyword::Not)
    } else if word == "be"@ {
        Some(Keyword::Be)
    } else if word == "equal"@ {
        Some(Keyword::Equal)
    } else if word == "to"@ {
        Some(Keyword::To)
    } else if word == "greater"@ {
        Some(Keyword::Greater)
    } else if word == "less"@ {
        Some(Keyword::Less)
    } else if word == "than"@ {
        Some(Keyword::Than)
    } else if word == "or"@ {
        Some(Keyword::Or)
    } else if word == "and"@ {
        Some(Keyword::And)
    } else if word == "one"@ {
        Some(Keyword::One)
    } else if word == "of"@ {
        Some(Keyword::Of)
    } else {
        None
    }
}

/// The token that starts at `from` and the place behind it.
///
/// `[`, `]` and `,` are tokens of one character. `$` starts an identifier,
/// which is the longest run of letters, digits and `_` behind it and is not
/// empty. A digit starts a number, the longest run of digits, which must fit
/// 64 bits. `"` starts a string, which ends at the next `"`. A letter starts
/// a word, the longest run of letters, which must be a word of the language.
pub open spec fn token_at(text: Seq<char>, from: int) -> Result<(TokenView, int), Fault>
    recommends
        0 <= from < text.len(),
{
    let c = text[from];
    let refused = Err(Fault { position: from, expected: Expected::Token });
    if c == '[' {
        Ok((TokenView::Open, from + 1))
    } else if c == ']' {
        Ok((TokenView::Close, from + 1))
    } else if c == ',' {
        Ok((TokenView::Comma, from + 1))
    } else if c == '$' {
        let end = run_end(text, from + 1, Class::Name);
        if end == from + 1 {
            refused
        } else {
            Ok((TokenView::Identifier(text.subrange(from + 1, end)), end))
        }
    } else if c == '"' {
        let end = run_end(text, from + 1, Class::Unquoted);
        if end >= text.len() {
            refused
        } else {
            Ok((TokenView::Text(text.subrange(from + 1, end)), end + 1))
        }
    } else if is_digit(c) {
        let end = run_end(text, from, Class::Digit);
        let value = decimal(text.subrange(from, end));
        if value > u64::MAX {
            refused
        } else {
            Ok((TokenView::Integer(value as u64), end))
        }
    } else if is_letter(c) {
        let end = run_end(text, from, Class::Letter);
        match keyword_of(text.subrange(from, end)) {
            Some(k) => Ok((TokenView::Word(k), end)),
            None => refused,
        }
    } else {
        refused
    }
}

/// A token ends behind its first character and within the text.
pub proof fn lemma_token_advances(text: Seq<char>, from: int)
    requires
        0 <= from < text.len(),
    ensures
        token_at(text, from) matches Ok((_, end)) ==> from < end <= text.len(),
{
    lemma_run_end_bounds(text, from + 1, Class::Name);
    lemma_run_end_bounds(text, from + 1, Class::Unquoted);
    lemma_run_end_bounds(text, from + 1, Class::Digit);
    lemma_run_end_bounds(text, from + 1, Class::Letter);
}

/// The tokens of the text from `from` on, each with its place. Spaces, tabs
/// and line ends separate tokens and are dropped.
pub open spec fn lexed(text: Seq<char>, from: int) -> Result<Seq<LexemeView>, Fault>
    decreases text.len() - from,
    via lexed_decreases
{
    if !(0 <= from < text.len()) {
        Ok(Seq::empty())
    } else if is_space(text[from]) {
        lexed(text, from + 1)
    } else {
        match token_at(text, from) {
            Err(e) => Err(e),
            Ok((token, end)) => prefixed(
                seq![LexemeView { token, position: from as nat }],
                lexed(text, end),
            ),
        }
    }
}

#[via_fn]
proof fn lexed_decreases(text: Seq<char>, from: int) {
    if 0 <= from < text.len() && !is_space(text[from]) {
        lemma_token_advances(text, from);
    }
}

/// The characters of a string slice.
fn characters(source: &str) -> (chars: Vec<char>)
    ensures
        chars@ == source@,
{
    let n = source.unicode_len();
    let mut chars: Vec<char> = Vec::with_capacity(n);
    let mut i: usize = 0;
    while i < n
        invariant
            i <= n,
            n == source@.len(),
            chars@ == source@.take(i as int),
        decreases n - i,
    {
        chars.push(source.get_char(i));
        i += 1;
        assert(chars@ =~= source@.take(i as int));
    }
    assert(source@.take(i as int) =~= source@);
    chars
}

/// Whether the characters from `from` to `to` spell `word`.
fn spelled(chars: &Vec<char>, from: usize, to: usize, word: &str) -> (r: bool)
    requires
        from <= to <= chars.len(),
    ensures
        r == (chars@.subrange(from as int, to as int) == word@),
{
    let n = word.unicode_len();
    if to - from != n {
        return false;
    }
    let ghost run = chars@.subrange(from as int, to as int);
    let mut i: usize = 0;
    while i < n
        invariant
            i <= n,
            n == word@.len(),
            n == to - from,
            to <= chars.len(),
            run == chars@.subrange(from as int, to as int),
            run.take(i as int) == word@.take(i as int),
        decreases n - i,
    {
        if chars[from + i] != word.get_char(i) {
            assert(run[i as int] != word@[i as int]);
            return false;
        }
        i += 1;
        assert(run.take(i as int) =~= run.take(i - 1).push(run[i - 1]));
        assert(word@.take(i as int) =~= word@.take(i - 1).push(word@[i - 1]));
    }
    assert(run.take(i as int) =~= run);
    assert(word@.take(i as int) =~= word@);
    true
}

/// The word of the language that the characters from `from` to `to` spell.
fn keyword(chars: &Vec<char>, from: usize, to: usize) -> (r: Option<Keyword>)
    requires
        from <= to <= chars.len(),
    ensures
        r == keyword_of(chars@.subrange(from as int, to as int)),
{
    if spelled(chars, from, to, "given") {
        Some(Keyword::Given)
    } else if spelled(chars, from, to, "parameters") {
        Some(Keyword::Parameters)
    } else if spelled(chars, from, to, "define") {
        Some(Keyword::Define)
    } else if spelled(chars, from, to, "as") {
        Some(Keyword::As)
    } else if spelled(chars, from, to, "must") {
        Some(Keyword::Must)
    } else if spelled(chars, from, to, "not") {
        Some(Keyword::Not)
    } else if spelled(chars, from, to, "be") {
        Some(Keyword::Be)
    } else if spelled(chars, from, to, "equal") {
        Some(Keyword::Equal)
    } else if spelled(chars, from, to, "to") {
        Some(Keyword::To)
    } else if spelled(chars, from, to, "greater") {
        Some(Keyword::Greater)
    } else if spelled(chars, from, to, "less") {
        Some(Keyword::Less)
    } else if spelled(chars, from, to, "than") {
        Some(Keyword::Than)
    } else if spelled(chars, from, to, "or") {
        Some(Keyword::Or)
    } else if spelled(chars, from, to, "and") {
        Some(Keyword::And)
    } else if spelled(chars, from, to, "one") {
        Some(Keyword::One)
    } else if spelled(chars, from, to, "of") {
        Some(Keyword::Of)
    } else {
        None
    }
}

/// A run of digits writes at least the number that its start writes.
proof fn lemma_decimal_grows(digits: Seq<char>, n: int)
    requires
        0 <= n <= digits.len(),
    ensures
        decimal(digits.take(n)) <= decimal(digits),
    decreases digits.len() - n,
{
    if n < digits.len() {
        lemma_decimal_grows(digits, n + 1);
        assert(digits.take(n + 1).drop_last() =~= digits.take(n));
    } else {
        assert(digits.take(n) =~= digits);
    }
}

/// The number that the digits from `from` to `to` write, if it fits 64
/// bits.
fn number(chars: &Vec<char>, from: usize, to: usize) -> (r: Option<u64>)
    requires
        from <= to <= chars.len(),
        forall|k: int| from <= k < to ==> is_digit(#[trigger] chars@[k]),
    ensures
        match r {
            Some(n) => decimal(chars@.subrange(from as int, to as int)) == n,
            None => decimal(chars@.subrange(from as int, to as int)) > u64::MAX,
        },
{
    let ghost digits = chars@.subrange(from as int, to as int);
    let mut value: u64 = 0;
    let mut i: usize = from;
    while i < to
        invariant
            from <= i <= to <= chars.len(),
            digits == chars@.subrange(from as int, to as int),
            forall|k: int| from <= k < to ==> is_digit(#[trigger] chars@[k]),
            value == decimal(digits.take(i - from)),
        decreases to - i,
    {
        let c = chars[i];
        assert(is_digit(chars@[i as int]));
        let digit: u64 = (c as u32 - '0' as u32) as u64;
        proof {
            assert(digits.take(i + 1 - from).drop_last() =~= digits.take(i - from));
            assert(digits.take(i + 1 - from).last() == c);
            lemma_decimal_grows(digits, i + 1 - from);
        }
        let scaled = match value.checked_mul(10) {
            Some(scaled) => scaled,
            None => {
                return None;
            },
        };
        value = match scaled.checked_add(digit) {
            Some(sum) => sum,
            None => {
                return None;
            },
        };
        i += 1;
    }
    assert(digits.take(i - from) =~= digits);
    Some(value)
}

/// The token that starts at `from`, and the place behind it.
fn token(source: &str, chars: &Vec<char>, from: usize) -> (r: Result<(Token, usize), ParseError>)
    requires
        chars@ == source@,
        from < chars.len(),
    ensures
        match token_at(chars@, from as int) {
            Ok((t, end)) => r matches Ok((token, e)) && token@ == t && e == end,
            Err(fault) => r matches Err(e) && e@ == fault,
        },
{
    let c = chars[from];
    let refused = ParseError { position: from, expected: Expected::Token };
    if c == '[' {
        Ok((Token::Open, from + 1))
    } else if c == ']' {
        Ok((Token::Close, from + 1))
    } else if c == ',' {
        Ok((Token::Comma, from + 1))
    } else if c == '$' {
        let end = scan(chars, from + 1, Class::Name);
        if end == from + 1 {
            Err(refused)
        } else {
            Ok((Token::Identifier(source.substring_char(from + 1, end).to_owned()), end))
        }
    } else if c == '"' {
        let end = scan(chars, from + 1, Class::Unquoted);
        if end >= chars.len() {
            Err(refused)
        } else {
            Ok((Token::Text(source.substring_char(from + 1, end).to_owned()), end + 1))
        }
    } else if Class::Digit.test(c) {
        let end = scan(chars, from, Class::Digit);
        proof {
            lemma_run_holds(chars@, from as int, Class::Digit);
        }
        match number(chars, from, end) {
            Some(value) => Ok((Token::Integer(value), end)),
            None => Err(refused),
        }
    } else if Class::Letter.test(c) {
        let end = scan(chars, from, Class::Letter);
        match keyword(chars, from, end) {
            Some(k) => Ok((Token::Word(k), end)),
            None => Err(refused),
        }
    } else {
        Err(refused)
    }
}

/// Every character of a run is of the run's class.
pub proof fn lemma_run_holds(text: Seq<char>, from: int, class: Class)
    requires
        0 <= from <= text.len(),
    ensures
        forall|k: int| from <= k < run_end(text, from, class) ==> class.holds(#[trigger] text[k]),
    decreases text.len() - from,
{
    if from < text.len() && class.holds(text[from]) {
        lemma_run_holds(text, from + 1, class);
    }
}

/// The tokens of a text, each with the place of its first character.
pub fn lex(source: &str) -> (r: Result<Vec<Lexeme>, ParseError>)
    ensures
        match lexed(source@, 0) {
            Ok(l) => r matches Ok(v) && lexemes(v@) == l,
            Err(fault) => r matches Err(e) && e@ == fault,
        },
{
    let chars = characters(source);
    let mut out: Vec<Lexeme> = Vec::new();
    let mut position: usize = 0;
    while position < chars.len()
        invariant
            chars@ == source@,
            position <= chars.len(),
            lexed(source@, 0) == prefixed(lexemes(out@), lexed(source@, position as int)),
        decreases chars.len() - position,
    {
        let c = chars[position];
        if c == ' ' || c == '\t' || c == '\n' || c == '\r' {
            position += 1;
        } else {
            proof {
                lemma_token_advances(chars@, position as int);
            }
            match token(source, &chars, position) {
                Err(e) => {
                    return Err(e);
                },
                Ok((token, end)) => {
                    let ghost before = lexemes(out@);
                    let lexeme = Lexeme { token, position };
                    proof {
                        let rest = lexed(source@, end as int);
                        if let Ok(l) = rest {
                            assert(before + (seq![lexeme@] + l) =~= before.push(lexeme@) + l);
                        }
                    }
                    out.push(lexeme);
                    assert(lexemes(out@) =~= before.push(lexeme@));
                    position = end;
                },
            }
        }
    }
    assert(lexemes(out@) + Seq::<LexemeView>::empty() =~= lexemes(out@));
    Ok(out)
}

/// `rest` with `head` in front of its lexemes, where it has any.
pub open spec fn prefixed(head: Seq<LexemeView>, rest: Result<Seq<LexemeView>, Fault>) -> Result<
    Seq<LexemeView>,
    Fault,
> {
    match rest {
        Ok(l) => Ok(head + l),
        Err(e) => Err(e),
    }
}

} // verus!
