//! The lexer: source text to an ordered token sequence, or a lexical
//! error. Whitespace (space, tab, newline) separates tokens; numbers,
//! string literals, identifiers and keywords, and punctuation operators
//! are recognised left to right with one character of lookahead.
//!
//! `lex_spec` is the mathematical statement of the whole pass; `lex`
//! is proved to return exactly what it says.

use vstd::prelude::*;
use vstd::string::StringExecFns;

use crate::err::ParseError;
use crate::text::chars_of;
use crate::text::eq2;
use crate::text::eq3;
use crate::text::eq4;
use crate::text::eq5;
use crate::text::eq6;
use crate::text::char_to_string;
use crate::text::string_from_chars;
use crate::text::subvec;

verus! {

/// One token of the language.
#[derive(Debug, PartialEq)]
pub enum LexerToken {
    Keyword(Keyword),
    Punctuation(Punctuation),
    IntLit(i64),
    /// A float literal carries its source text (digits with one point);
    /// its numeric value is only taken when the literal is evaluated.
    FloatLit(String),
    BoolLit(bool),
    StrLit(String),
    Identifier(String),
}

/// The keywords of the statement grammar.
#[derive(Debug, PartialEq, Eq, Structural, Clone, Copy)]
pub enum Keyword {
    Loop,
    While,
    From,
    To,
    Until,
    If,
    Then,
    Else,
    End,
    Input,
    Output,
}

/// The operators, including the assignment sign.
#[derive(Debug, PartialEq, Eq, Structural, Clone, Copy)]
pub enum Punctuation {
    Plus,
    Minus,
    Mul,
    Div,
    FloorDiv,
    Mod,
    Assign,
    Equals,
    GT,
    LT,
    GE,
    LE,
}

/// The mathematical shape of a token: string payloads as character
/// sequences.
pub enum TokView {
    Keyword(Keyword),
    Punctuation(Punctuation),
    IntLit(i64),
    FloatLit(Seq<char>),
    BoolLit(bool),
    StrLit(Seq<char>),
    Identifier(Seq<char>),
}

impl View for LexerToken {
    type V = TokView;

    open spec fn view(&self) -> TokView {
        match self {
            LexerToken::Keyword(k) => TokView::Keyword(*k),
            LexerToken::Punctuation(p) => TokView::Punctuation(*p),
            LexerToken::IntLit(x) => TokView::IntLit(*x),
            LexerToken::FloatLit(s) => TokView::FloatLit(s@),
            LexerToken::BoolLit(b) => TokView::BoolLit(*b),
            LexerToken::StrLit(s) => TokView::StrLit(s@),
            LexerToken::Identifier(s) => TokView::Identifier(s@),
        }
    }
}

/// The views of a token sequence.
pub open spec fn toks_view(s: Seq<LexerToken>) -> Seq<TokView> {
    s.map_values(|t: LexerToken| t@)
}

/// Binding strength of each operator: assignment 0, comparisons 1,
/// additive 2, multiplicative 3.
pub open spec fn precedence_of(p: Punctuation) -> u32 {
    match p {
        Punctuation::Assign => 0,
        Punctuation::Equals => 1,
        Punctuation::GT => 1,
        Punctuation::LT => 1,
        Punctuation::GE => 1,
        Punctuation::LE => 1,
        Punctuation::Plus => 2,
        Punctuation::Minus => 2,
        Punctuation::Mul => 3,
        Punctuation::Div => 3,
        Punctuation::FloorDiv => 3,
        Punctuation::Mod => 3,
    }
}

impl Punctuation {
    /// Binding strength used by the precedence-climbing parser; higher
    /// binds tighter, and all operators are left-associative.
    pub fn precedence(&self) -> (r: u32)
        ensures
            r == precedence_of(*self),
    {
        match *self {
            Punctuation::Assign => 0,
            Punctuation::Equals => 1,
            Punctuation::GT => 1,
            Punctuation::LT => 1,
            Punctuation::GE => 1,
            Punctuation::LE => 1,
            Punctuation::Plus => 2,
            Punctuation::Minus => 2,
            Punctuation::Mul => 3,
            Punctuation::Div => 3,
            Punctuation::FloorDiv => 3,
            Punctuation::Mod => 3,
        }
    }
}

// ---------------------------------------------------------------------
// Character classes
// ---------------------------------------------------------------------

/// An ASCII decimal digit.
pub open spec fn is_digit_c(c: char) -> bool {
    48 <= c as u32 && c as u32 <= 57
}

/// An ASCII letter.
pub open spec fn is_alpha_c(c: char) -> bool {
    (65 <= c as u32 && c as u32 <= 90) || (97 <= c as u32 && c as u32 <= 122)
}

/// A character that may continue an identifier or keyword.
pub open spec fn is_word_c(c: char) -> bool {
    is_alpha_c(c) || c == '_'
}

/// The three characters the lexer skips between tokens.
pub open spec fn is_lex_ws(c: char) -> bool {
    c == ' ' || c == '\n' || c == '\t'
}

/// An ASCII punctuation character.
pub open spec fn is_punct_c(c: char) -> bool {
    (33 <= c as u32 && c as u32 <= 47) || (58 <= c as u32 && c as u32 <= 64) || (91 <= c as u32
        && c as u32 <= 96) || (123 <= c as u32 && c as u32 <= 126)
}

/// An uppercase ASCII letter or an underscore: the only characters a
/// valid identifier may contain.
pub open spec fn is_ident_c(c: char) -> bool {
    (65 <= c as u32 && c as u32 <= 90) || c == '_'
}

/// ASCII lowercasing of one character.
pub open spec fn lower_c(c: char) -> char {
    if 65 <= c as u32 && c as u32 <= 90 {
        (((c as u32) + 32) as u8) as char
    } else {
        c
    }
}

/// ASCII lowercasing of a character sequence.
pub open spec fn lower_seq(s: Seq<char>) -> Seq<char> {
    s.map_values(|c: char| lower_c(c))
}

// ---------------------------------------------------------------------
// The keyword table
// ---------------------------------------------------------------------

/// The keyword table, consulted with the lowercased word: `mod` and
/// `div` lex as operators, `true` and `false` as boolean literals.
pub open spec fn kw_lookup(w: Seq<char>) -> Option<TokView> {
    if w == seq!['l', 'o', 'o', 'p'] {
        Some(TokView::Keyword(Keyword::Loop))
    } else if w == seq!['w', 'h', 'i', 'l', 'e'] {
        Some(TokView::Keyword(Keyword::While))
    } else if w == seq!['f', 'r', 'o', 'm'] {
        Some(TokView::Keyword(Keyword::From))
    } else if w == seq!['t', 'o'] {
        Some(TokView::Keyword(Keyword::To))
    } else if w == seq!['u', 'n', 't', 'i', 'l'] {
        Some(TokView::Keyword(Keyword::Until))
    } else if w == seq!['i', 'f'] {
        Some(TokView::Keyword(Keyword::If))
    } else if w == seq!['t', 'h', 'e', 'n'] {
        Some(TokView::Keyword(Keyword::Then))
    } else if w == seq!['e', 'l', 's', 'e'] {
        Some(TokView::Keyword(Keyword::Else))
    } else if w == seq!['e', 'n', 'd'] {
        Some(TokView::Keyword(Keyword::End))
    } else if w == seq!['i', 'n', 'p', 'u', 't'] {
        Some(TokView::Keyword(Keyword::Input))
    } else if w == seq!['o', 'u', 't', 'p', 'u', 't'] {
        Some(TokView::Keyword(Keyword::Output))
    } else if w == seq!['m', 'o', 'd'] {
        Some(TokView::Punctuation(Punctuation::Mod))
    } else if w == seq!['d', 'i', 'v'] {
        Some(TokView::Punctuation(Punctuation::FloorDiv))
    } else if w == seq!['t', 'r', 'u', 'e'] {
        Some(TokView::BoolLit(true))
    } else if w == seq!['f', 'a', 'l', 's', 'e'] {
        Some(TokView::BoolLit(false))
    } else {
        None
    }
}

/// The keyword table over an already-lowercased word held as characters.
fn kw_token(w: &Vec<char>) -> (r: Option<LexerToken>)
    ensures
        match r {
            Some(t) => kw_lookup(w@) == Some(t@),
            None => kw_lookup(w@) is None,
        },
{
    if eq4(w, 'l', 'o', 'o', 'p') {
        Some(LexerToken::Keyword(Keyword::Loop))
    } else if eq5(w, 'w', 'h', 'i', 'l', 'e') {
        Some(LexerToken::Keyword(Keyword::While))
    } else if eq4(w, 'f', 'r', 'o', 'm') {
        Some(LexerToken::Keyword(Keyword::From))
    } else if eq2(w, 't', 'o') {
        Some(LexerToken::Keyword(Keyword::To))
    } else if eq5(w, 'u', 'n', 't', 'i', 'l') {
        Some(LexerToken::Keyword(Keyword::Until))
    } else if eq2(w, 'i', 'f') {
        Some(LexerToken::Keyword(Keyword::If))
    } else if eq4(w, 't', 'h', 'e', 'n') {
        Some(LexerToken::Keyword(Keyword::Then))
    } else if eq4(w, 'e', 'l', 's', 'e') {
        Some(LexerToken::Keyword(Keyword::Else))
    } else if eq3(w, 'e', 'n', 'd') {
        Some(LexerToken::Keyword(Keyword::End))
    } else if eq5(w, 'i', 'n', 'p', 'u', 't') {
        Some(LexerToken::Keyword(Keyword::Input))
    } else if eq6(w, 'o', 'u', 't', 'p', 'u', 't') {
        Some(LexerToken::Keyword(Keyword::Output))
    } else if eq3(w, 'm', 'o', 'd') {
        Some(LexerToken::Punctuation(Punctuation::Mod))
    } else if eq3(w, 'd', 'i', 'v') {
        Some(LexerToken::Punctuation(Punctuation::FloorDiv))
    } else if eq4(w, 't', 'r', 'u', 'e') {
        Some(LexerToken::BoolLit(true))
    } else if eq5(w, 'f', 'a', 'l', 's', 'e') {
        Some(LexerToken::BoolLit(false))
    } else {
        None
    }
}

impl LexerToken {
    /// The keyword table on raw (already lowercased) text, as the lexer
    /// consults it for each scanned word.
    pub fn from_identifier(keyword: &str) -> (r: Option<LexerToken>)
        ensures
            match r {
                Some(t) => kw_lookup(keyword@) == Some(t@),
                None => kw_lookup(keyword@) is None,
            },
    {
        let w = chars_of(keyword);
        kw_token(&w)
    }
}

// ---------------------------------------------------------------------
// Scanners
// ---------------------------------------------------------------------

/// First index at or after `i` whose character is not a digit.
pub open spec fn digits_end(s: Seq<char>, i: int) -> int
    decreases s.len() - i,
{
    if 0 <= i < s.len() && is_digit_c(s[i]) {
        digits_end(s, i + 1)
    } else {
        i
    }
}

/// First index at or after `i` whose character cannot continue a word.
pub open spec fn word_end(s: Seq<char>, i: int) -> int
    decreases s.len() - i,
{
    if 0 <= i < s.len() && is_word_c(s[i]) {
        word_end(s, i + 1)
    } else {
        i
    }
}

/// Position of the first double quote at or after `i`, if any.
pub open spec fn quote_pos(s: Seq<char>, i: int) -> Option<int>
    decreases s.len() - i,
{
    if i < 0 || i >= s.len() {
        None
    } else if s[i] == '"' {
        Some(i)
    } else {
        quote_pos(s, i + 1)
    }
}

/// Value of a sequence of decimal digits, most significant first.
pub open spec fn digits_val(d: Seq<char>) -> int
    decreases d.len(),
{
    if d.len() == 0 {
        0
    } else {
        digits_val(d.drop_last()) * 10 + (d.last() as u32 - 48)
    }
}

/// The numeric token starting at `i` (a digit): digits with at most one
/// decimal point. A second point is a malformed float; an integer too
/// large for 64 bits fails to parse.
pub open spec fn scan_number(s: Seq<char>, i: int) -> Result<(TokView, int), Seq<char>> {
    let j1 = digits_end(s, i);
    if j1 < s.len() && s[j1] == '.' {
        let j2 = digits_end(s, j1 + 1);
        if j2 < s.len() && s[j2] == '.' {
            Err("Malformed float literal"@)
        } else {
            Ok((TokView::FloatLit(s.subrange(i, j2)), j2))
        }
    } else {
        let v = digits_val(s.subrange(i, j1));
        if v > i64::MAX {
            Err("Failed to parse int literal"@)
        } else {
            Ok((TokView::IntLit(v as i64), j1))
        }
    }
}

/// The word token starting at `i` (a letter): a keyword case
/// insensitively, else an identifier, which must be all uppercase
/// letters and underscores.
pub open spec fn scan_word(s: Seq<char>, i: int) -> Result<(TokView, int), Seq<char>> {
    let j = word_end(s, i);
    let raw = s.subrange(i, j);
    match kw_lookup(lower_seq(raw)) {
        Some(t) => Ok((t, j)),
        None => if forall|k: int| 0 <= k < raw.len() ==> is_ident_c(raw[k]) {
            Ok((TokView::Identifier(raw), j))
        } else {
            Err("Invalid identifier: "@ + raw)
        },
    }
}

/// The string literal starting at `i` (a double quote): characters taken
/// verbatim until the closing quote; end of input without one is an
/// error.
pub open spec fn scan_string(s: Seq<char>, i: int) -> Result<(TokView, int), Seq<char>> {
    match quote_pos(s, i + 1) {
        Some(k) => Ok((TokView::StrLit(s.subrange(i + 1, k)), k + 1)),
        None => Err("Failed to parse string literal"@),
    }
}

/// The operator starting at `i` (a punctuation character): `>=`, `<=`
/// and `==` by one character of lookahead, else a single-character
/// operator, else an error.
pub open spec fn scan_punct(s: Seq<char>, i: int) -> Result<(TokView, int), Seq<char>> {
    let c = s[i];
    if c == '>' && i + 1 < s.len() && s[i + 1] == '=' {
        Ok((TokView::Punctuation(Punctuation::GE), i + 2))
    } else if c == '<' && i + 1 < s.len() && s[i + 1] == '=' {
        Ok((TokView::Punctuation(Punctuation::LE), i + 2))
    } else if c == '=' && i + 1 < s.len() && s[i + 1] == '=' {
        Ok((TokView::Punctuation(Punctuation::Equals), i + 2))
    } else if c == '+' {
        Ok((TokView::Punctuation(Punctuation::Plus), i + 1))
    } else if c == '-' {
        Ok((TokView::Punctuation(Punctuation::Minus), i + 1))
    } else if c == '*' {
        Ok((TokView::Punctuation(Punctuation::Mul), i + 1))
    } else if c == '/' {
        Ok((TokView::Punctuation(Punctuation::Div), i + 1))
    } else if c == '<' {
        Ok((TokView::Punctuation(Punctuation::LT), i + 1))
    } else if c == '>' {
        Ok((TokView::Punctuation(Punctuation::GT), i + 1))
    } else if c == '=' {
        Ok((TokView::Punctuation(Punctuation::Assign), i + 1))
    } else {
        Err("Invalid punctuation: "@ + seq![c])
    }
}

/// The whole lexical pass from index `i`: the token sequence of the
/// rest of the text, or the first error.
pub open spec fn lex_spec(s: Seq<char>, i: int) -> Result<Seq<TokView>, Seq<char>>
    decreases s.len() - i,
{
    if i < 0 || i >= s.len() {
        Ok(Seq::empty())
    } else if is_lex_ws(s[i]) {
        lex_spec(s, i + 1)
    } else {
        let sc = if is_digit_c(s[i]) {
            scan_number(s, i)
        } else if s[i] == '"' {
            scan_string(s, i)
        } else if is_alpha_c(s[i]) {
            scan_word(s, i)
        } else if is_punct_c(s[i]) {
            scan_punct(s, i)
        } else {
            Err("Unknow char: '"@ + seq![s[i]] + "'"@)
        };
        match sc {
            Err(m) => Err(m),
            Ok((t, j)) => {
                let j2 = if i < j <= s.len() {
                    j
                } else {
                    i + 1
                };
                match lex_spec(s, j2) {
                    Err(m) => Err(m),
                    Ok(rest) => Ok(seq![t] + rest),
                }
            },
        }
    }
}

// ---------------------------------------------------------------------
// Executable scanners
// ---------------------------------------------------------------------

proof fn lemma_digits_end(s: Seq<char>, i: int)
    requires
        0 <= i <= s.len(),
    ensures
        i <= digits_end(s, i) <= s.len(),
        i < s.len() && is_digit_c(s[i]) ==> i < digits_end(s, i),
        forall|k: int| i <= k < digits_end(s, i) ==> is_digit_c(s[k]),
    decreases s.len() - i,
{
    if i < s.len() && is_digit_c(s[i]) {
        lemma_digits_end(s, i + 1);
    }
}

fn digits_end_exec(v: &Vec<char>, i: usize) -> (r: usize)
    requires
        i <= v.len(),
    ensures
        r == digits_end(v@, i as int),
        i <= r <= v.len(),
    decreases v.len() - i,
{
    if i < v.len() && 48 <= v[i] as u32 && v[i] as u32 <= 57 {
        digits_end_exec(v, i + 1)
    } else {
        i
    }
}

fn word_end_exec(v: &Vec<char>, i: usize) -> (r: usize)
    requires
        i <= v.len(),
    ensures
        r == word_end(v@, i as int),
        i <= r <= v.len(),
    decreases v.len() - i,
{
    if i < v.len() && ((65 <= v[i] as u32 && v[i] as u32 <= 90) || (97 <= v[i] as u32 && v[i] as u32
        <= 122) || v[i] == '_') {
        word_end_exec(v, i + 1)
    } else {
        i
    }
}

fn quote_pos_exec(v: &Vec<char>, i: usize) -> (r: Option<usize>)
    requires
        i <= v.len(),
    ensures
        match r {
            Some(k) => quote_pos(v@, i as int) == Some(k as int) && i <= k < v.len(),
            None => quote_pos(v@, i as int) is None,
        },
    decreases v.len() - i,
{
    if i >= v.len() {
        None
    } else if v[i] == '"' {
        Some(i)
    } else {
        quote_pos_exec(v, i + 1)
    }
}

pub(crate) fn digits_value(v: &Vec<char>, i: usize, j: usize) -> (r: Option<u64>)
    requires
        i <= j <= v.len(),
        forall|k: int| i <= k < j ==> is_digit_c(v@[k]),
    ensures
        match r {
            Some(x) => x as int == digits_val(v@.subrange(i as int, j as int)),
            None => digits_val(v@.subrange(i as int, j as int)) > u64::MAX,
        },
    decreases j - i,
{
    if j == i {
        proof {
            assert(v@.subrange(i as int, j as int).len() == 0);
        }
        Some(0)
    } else {
        let rest = digits_value(v, i, j - 1);
        let ghost whole = v@.subrange(i as int, j as int);
        let ghost prefix = v@.subrange(i as int, j - 1 as int);
        proof {
            assert(whole.drop_last() =~= prefix);
            assert(whole.last() == v@[j - 1]);
        }
        let d: u64 = ((v[j - 1] as u32) - 48) as u64;
        match rest {
            None => None,
            Some(x) => {
                match x.checked_mul(10) {
                    None => None,
                    Some(y) => {
                        match y.checked_add(d) {
                            None => None,
                            Some(z) => Some(z),
                        }
                    },
                }
            },
        }
    }
}

fn scan_number_exec(v: &Vec<char>, i: usize) -> (r: Result<(LexerToken, usize), ParseError>)
    requires
        i < v.len(),
        is_digit_c(v@[i as int]),
    ensures
        match r {
            Ok((t, j)) => scan_number(v@, i as int) == Ok::<(TokView, int), Seq<char>>(
                (t@, j as int),
            ) && i < j <= v.len(),
            Err(e) => scan_number(v@, i as int) == Err::<(TokView, int), Seq<char>>(e.msg@),
        },
{
    proof {
        lemma_digits_end(v@, i as int);
    }
    let j1 = digits_end_exec(v, i);
    if j1 < v.len() && v[j1] == '.' {
        proof {
            lemma_digits_end(v@, j1 + 1 as int);
        }
        let j2 = digits_end_exec(v, j1 + 1);
        if j2 < v.len() && v[j2] == '.' {
            Err(ParseError::new(String::from_str("Malformed float literal")))
        } else {
            let text = string_from_chars(&subvec(v, i, j2));
            Ok((LexerToken::FloatLit(text), j2))
        }
    } else {
        match digits_value(v, i, j1) {
            Some(x) if x <= i64::MAX as u64 => Ok((LexerToken::IntLit(x as i64), j1)),
            _ => Err(ParseError::new(String::from_str("Failed to parse int literal"))),
        }
    }
}

proof fn lemma_word_end(s: Seq<char>, i: int)
    requires
        0 <= i <= s.len(),
    ensures
        i <= word_end(s, i) <= s.len(),
        i < s.len() && is_word_c(s[i]) ==> i < word_end(s, i),
        forall|k: int| i <= k < word_end(s, i) ==> is_word_c(s[k]),
    decreases s.len() - i,
{
    if i < s.len() && is_word_c(s[i]) {
        lemma_word_end(s, i + 1);
    }
}

fn lower_char(c: char) -> (r: char)
    ensures
        r == lower_c(c),
{
    let u = c as u32;
    if 65 <= u && u <= 90 {
        ((u + 32) as u8) as char
    } else {
        c
    }
}

fn lower_vec(w: &Vec<char>) -> (r: Vec<char>)
    ensures
        r@ == lower_seq(w@),
{
    let mut r: Vec<char> = Vec::new();
    let mut k: usize = 0;
    while k < w.len()
        invariant
            k <= w.len(),
            r@.len() == k,
            forall|t: int| 0 <= t < k ==> r@[t] == lower_c(w@[t]),
        decreases w.len() - k,
    {
        r.push(lower_char(w[k]));
        k += 1;
    }
    proof {
        assert(r@ =~= lower_seq(w@));
    }
    r
}

fn ident_chars_ok(w: &Vec<char>) -> (r: bool)
    ensures
        r == forall|k: int| 0 <= k < w@.len() ==> is_ident_c(w@[k]),
{
    let mut k: usize = 0;
    while k < w.len()
        invariant
            k <= w.len(),
            forall|t: int| 0 <= t < k ==> is_ident_c(w@[t]),
        decreases w.len() - k,
    {
        let c = w[k];
        if !((65 <= c as u32 && c as u32 <= 90) || c == '_') {
            return false;
        }
        k += 1;
    }
    true
}

fn scan_word_exec(v: &Vec<char>, i: usize) -> (r: Result<(LexerToken, usize), ParseError>)
    requires
        i < v.len(),
        is_alpha_c(v@[i as int]),
    ensures
        match r {
            Ok((t, j)) => scan_word(v@, i as int) == Ok::<(TokView, int), Seq<char>>(
                (t@, j as int),
            ) && i < j <= v.len(),
            Err(e) => scan_word(v@, i as int) == Err::<(TokView, int), Seq<char>>(e.msg@),
        },
{
    proof {
        lemma_word_end(v@, i as int);
    }
    let j = word_end_exec(v, i);
    let raw = subvec(v, i, j);
    let low = lower_vec(&raw);
    match kw_token(&low) {
        Some(t) => Ok((t, j)),
        None => {
            if ident_chars_ok(&raw) {
                Ok((LexerToken::Identifier(string_from_chars(&raw)), j))
            } else {
                let msg = String::from_str("Invalid identifier: ").concat(
                    string_from_chars(&raw).as_str(),
                );
                Err(ParseError::new(msg))
            }
        },
    }
}

fn scan_string_exec(v: &Vec<char>, i: usize) -> (r: Result<(LexerToken, usize), ParseError>)
    requires
        i < v.len(),
        v@[i as int] == '"',
    ensures
        match r {
            Ok((t, j)) => scan_string(v@, i as int) == Ok::<(TokView, int), Seq<char>>(
                (t@, j as int),
            ) && i < j <= v.len(),
            Err(e) => scan_string(v@, i as int) == Err::<(TokView, int), Seq<char>>(e.msg@),
        },
{
    match quote_pos_exec(v, i + 1) {
        Some(k) => {
            let text = string_from_chars(&subvec(v, i + 1, k));
            Ok((LexerToken::StrLit(text), k + 1))
        },
        None => Err(ParseError::new(String::from_str("Failed to parse string literal"))),
    }
}

fn scan_punct_exec(v: &Vec<char>, i: usize) -> (r: Result<(LexerToken, usize), ParseError>)
    requires
        i < v.len(),
    ensures
        match r {
            Ok((t, j)) => scan_punct(v@, i as int) == Ok::<(TokView, int), Seq<char>>(
                (t@, j as int),
            ) && i < j <= v.len(),
            Err(e) => scan_punct(v@, i as int) == Err::<(TokView, int), Seq<char>>(e.msg@),
        },
{
    let c = v[i];
    if c == '>' && i + 1 < v.len() && v[i + 1] == '=' {
        Ok((LexerToken::Punctuation(Punctuation::GE), i + 2))
    } else if c == '<' && i + 1 < v.len() && v[i + 1] == '=' {
        Ok((LexerToken::Punctuation(Punctuation::LE), i + 2))
    } else if c == '=' && i + 1 < v.len() && v[i + 1] == '=' {
        Ok((LexerToken::Punctuation(Punctuation::Equals), i + 2))
    } else if c == '+' {
        Ok((LexerToken::Punctuation(Punctuation::Plus), i + 1))
    } else if c == '-' {
        Ok((LexerToken::Punctuation(Punctuation::Minus), i + 1))
    } else if c == '*' {
        Ok((LexerToken::Punctuation(Punctuation::Mul), i + 1))
    } else if c == '/' {
        Ok((LexerToken::Punctuation(Punctuation::Div), i + 1))
    } else if c == '<' {
        Ok((LexerToken::Punctuation(Punctuation::LT), i + 1))
    } else if c == '>' {
        Ok((LexerToken::Punctuation(Punctuation::GT), i + 1))
    } else if c == '=' {
        Ok((LexerToken::Punctuation(Punctuation::Assign), i + 1))
    } else {
        let msg = String::from_str("Invalid punctuation: ").concat(char_to_string(c).as_str());
        Err(ParseError::new(msg))
    }
}

fn lex_rec(v: &Vec<char>, i: usize) -> (r: Result<Vec<LexerToken>, ParseError>)
    requires
        i <= v.len(),
    ensures
        match r {
            Ok(ts) => lex_spec(v@, i as int) == Ok::<Seq<TokView>, Seq<char>>(toks_view(ts@)),
            Err(e) => lex_spec(v@, i as int) == Err::<Seq<TokView>, Seq<char>>(e.msg@),
        },
    decreases v.len() - i,
{
    if i >= v.len() {
        let ts: Vec<LexerToken> = Vec::new();
        proof {
            assert(toks_view(ts@) =~= Seq::<TokView>::empty());
        }
        Ok(ts)
    } else {
        let c = v[i];
        if c == ' ' || c == '\n' || c == '\t' {
            lex_rec(v, i + 1)
        } else {
            let sc: Result<(LexerToken, usize), ParseError> = if 48 <= c as u32 && c as u32 <= 57 {
                scan_number_exec(v, i)
            } else if c == '"' {
                scan_string_exec(v, i)
            } else if (65 <= c as u32 && c as u32 <= 90) || (97 <= c as u32 && c as u32 <= 122) {
                scan_word_exec(v, i)
            } else if (33 <= c as u32 && c as u32 <= 47) || (58 <= c as u32 && c as u32 <= 64) || (
            91 <= c as u32 && c as u32 <= 96) || (123 <= c as u32 && c as u32 <= 126) {
                scan_punct_exec(v, i)
            } else {
                let msg = String::from_str("Unknow char: '").concat(
                    char_to_string(c).as_str(),
                ).concat("'");
                Err(ParseError::new(msg))
            };
            match sc {
                Err(e) => Err(e),
                Ok((t, j)) => {
                    match lex_rec(v, j) {
                        Err(e) => Err(e),
                        Ok(mut rest) => {
                            let ghost old_rest = rest@;
                            rest.insert(0, t);
                            proof {
                                assert(toks_view(rest@) =~= seq![t@] + toks_view(old_rest));
                            }
                            Ok(rest)
                        },
                    }
                },
            }
        }
    }
}

/// Turns source text into its token sequence, left to right, or fails
/// with the first lexical error; exactly `lex_spec` on the text's
/// characters.
pub fn lex(prog: &str) -> (r: Result<Vec<LexerToken>, ParseError>)
    ensures
        match r {
            Ok(ts) => lex_spec(prog@, 0) == Ok::<Seq<TokView>, Seq<char>>(toks_view(ts@)),
            Err(e) => lex_spec(prog@, 0) == Err::<Seq<TokView>, Seq<char>>(e.msg@),
        },
{
    let v = chars_of(prog);
    lex_rec(&v, 0)
}

} // verus!
