//! The lexical grammar of Ato: which raw token starts at a given position.
//!
//! Each raw token is the longest match among the token patterns; on a tie a
//! keyword beats a name, an imaginary number beats a plain number, and a
//! pragma beats a comment.

use vstd::prelude::*;
use crate::token::{TokenKind, spec_is_keyword, spec_is_reserved, spec_kind_name};

verus! {

/// Classes of characters that the token patterns repeat.
#[derive(Clone, Copy, PartialEq, Eq, Structural)]
pub enum CharClass {
    /// `[0-9]`
    Digit,
    /// `[0-9a-fA-F]`
    HexDigit,
    /// `[01]`
    BinDigit,
    /// `[0-7]`
    OctDigit,
    /// `[a-zA-Z0-9_]`
    IdentChar,
    /// `[a-zA-Z_]`
    Letter,
    /// `[ \t\f]`
    Blank,
    /// `[ \t]`
    SpaceTab,
    /// `[^\r\n]`
    NotLineEnd,
}

pub open spec fn is_digit(c: char) -> bool {
    '0' <= c && c <= '9'
}

pub open spec fn is_alpha(c: char) -> bool {
    ('a' <= c && c <= 'z') || ('A' <= c && c <= 'Z')
}

pub open spec fn in_class(cls: CharClass, c: char) -> bool {
    match cls {
        CharClass::Digit => is_digit(c),
        CharClass::HexDigit => is_digit(c) || ('a' <= c && c <= 'f') || ('A' <= c && c <= 'F'),
        CharClass::BinDigit => c == '0' || c == '1',
        CharClass::OctDigit => '0' <= c && c <= '7',
        CharClass::IdentChar => is_alpha(c) || is_digit(c) || c == '_',
        CharClass::Letter => is_alpha(c) || c == '_',
        CharClass::Blank => c == ' ' || c == '\t' || c == '\x0C',
        CharClass::SpaceTab => c == ' ' || c == '\t',
        CharClass::NotLineEnd => c != '\r' && c != '\n',
    }
}

/// Number of consecutive characters of class `cls` starting at `i`.
pub open spec fn class_run(s: Seq<char>, i: int, cls: CharClass) -> nat
    decreases s.len() - i,
{
    if 0 <= i < s.len() && in_class(cls, s[i]) {
        1 + class_run(s, i + 1, cls)
    } else {
        0
    }
}

/// `s[i]` exists and is `c`.
pub open spec fn at(s: Seq<char>, i: int, c: char) -> bool {
    0 <= i < s.len() && s[i] == c
}

// === Numbers ===

/// Length of `(\.[0-9]+)?` at `i`.
pub open spec fn frac_len(s: Seq<char>, i: int) -> nat {
    if at(s, i, '.') && class_run(s, i + 1, CharClass::Digit) > 0 {
        1 + class_run(s, i + 1, CharClass::Digit)
    } else {
        0
    }
}

/// Length of `([eE][+-]?[0-9]+)?` at `i`.
pub open spec fn exp_len(s: Seq<char>, i: int) -> nat {
    if at(s, i, 'e') || at(s, i, 'E') {
        let sign: nat = if at(s, i + 1, '+') || at(s, i + 1, '-') { 1 } else { 0 };
        let d = class_run(s, i + 1 + sign, CharClass::Digit);
        if d > 0 { 1 + sign + d } else { 0 }
    } else {
        0
    }
}

/// Length of `[0-9]+(\.[0-9]+)?([eE][+-]?[0-9]+)?` at `i` (0 when no digit is there).
pub open spec fn mantissa_len(s: Seq<char>, i: int) -> nat {
    let d = class_run(s, i, CharClass::Digit);
    if d == 0 {
        0
    } else {
        let f = frac_len(s, i + d);
        d + f + exp_len(s, i + d + f)
    }
}

/// Length of the decimal number pattern, with its unit suffix `[a-zA-Z_]*`.
pub open spec fn decimal_len(s: Seq<char>, i: int) -> nat {
    let m = mantissa_len(s, i);
    if m == 0 { 0 } else { m + class_run(s, i + m, CharClass::Letter) }
}

/// Length of the imaginary number pattern (a mantissa followed by `j` or `J`).
pub open spec fn imag_len(s: Seq<char>, i: int) -> nat {
    let m = mantissa_len(s, i);
    if m > 0 && (at(s, i + m, 'j') || at(s, i + m, 'J')) { m + 1 } else { 0 }
}

/// Length of a hexadecimal, binary or octal literal at `i`.
pub open spec fn radix_len(s: Seq<char>, i: int) -> nat {
    if at(s, i, '0') {
        let hx = class_run(s, i + 2, CharClass::HexDigit);
        let bn = class_run(s, i + 2, CharClass::BinDigit);
        let oc = class_run(s, i + 2, CharClass::OctDigit);
        if (at(s, i + 1, 'x') || at(s, i + 1, 'X')) && hx > 0 {
            2 + hx
        } else if (at(s, i + 1, 'b') || at(s, i + 1, 'B')) && bn > 0 {
            2 + bn
        } else if (at(s, i + 1, 'o') || at(s, i + 1, 'O')) && oc > 0 {
            2 + oc
        } else {
            0
        }
    } else {
        0
    }
}

/// The token that starts with the digit at `i`.
pub open spec fn scan_number(s: Seq<char>, i: int) -> (TokenKind, nat) {
    let dl = decimal_len(s, i);
    let il = imag_len(s, i);
    let rl = radix_len(s, i);
    if il > 0 && il >= dl {
        (TokenKind::ImagNumber, il)
    } else if rl > dl {
        (TokenKind::Number, rl)
    } else {
        (TokenKind::Number, dl)
    }
}

// === Strings ===

pub open spec fn is_quote(c: char) -> bool {
    c == '\'' || c == '"'
}

/// End (exclusive) of a single-quoted body that starts at `k` and is closed by `q`:
/// `([^q\\]|\\.)*q`, where `.` is any character but a newline.
pub open spec fn single_end(s: Seq<char>, k: int, q: char) -> Option<int>
    decreases s.len() - k,
{
    if k < 0 || k >= s.len() {
        None
    } else if s[k] == q {
        Some(k + 1)
    } else if s[k] == '\\' {
        if k + 1 < s.len() && s[k + 1] != '\n' {
            single_end(s, k + 2, q)
        } else {
            None
        }
    } else {
        single_end(s, k + 1, q)
    }
}

/// End (exclusive) of a triple-quoted body that starts at `k` and is closed by `qqq`:
/// `([^q\\]|\\.|q[^q]|qq[^q])*qqq`.
pub open spec fn triple_end(s: Seq<char>, k: int, q: char) -> Option<int>
    decreases s.len() - k,
{
    if k < 0 || k >= s.len() {
        None
    } else if s[k] == q {
        if k + 1 < s.len() && s[k + 1] != q {
            triple_end(s, k + 2, q)
        } else if k + 1 < s.len() {
            if k + 2 < s.len() && s[k + 2] != q {
                triple_end(s, k + 3, q)
            } else if k + 2 < s.len() {
                Some(k + 3)
            } else {
                None
            }
        } else {
            None
        }
    } else if s[k] == '\\' {
        if k + 1 < s.len() && s[k + 1] != '\n' {
            triple_end(s, k + 2, q)
        } else {
            None
        }
    } else {
        triple_end(s, k + 1, q)
    }
}

/// End of the quoted literal whose opening quote is at `j`: the triple-quoted form
/// when it matches, else the single-quoted form.
pub open spec fn quoted_end(s: Seq<char>, j: int) -> Option<int> {
    let q = s[j];
    if at(s, j + 1, q) && at(s, j + 2, q) && triple_end(s, j + 3, q).is_some() {
        triple_end(s, j + 3, q)
    } else {
        single_end(s, j + 1, q)
    }
}

/// `[rRuUfF]`
pub open spec fn is_string_prefix1(c: char) -> bool {
    c == 'r' || c == 'R' || c == 'u' || c == 'U' || c == 'f' || c == 'F'
}

/// `[rRfF]`
pub open spec fn is_string_prefix2(c: char) -> bool {
    c == 'r' || c == 'R' || c == 'f' || c == 'F'
}

/// Length of the string prefix `[rRuUfF]?[rRfF]?` that is followed by a quote.
pub open spec fn string_prefix(s: Seq<char>, i: int) -> Option<nat> {
    if 0 <= i < s.len() && is_quote(s[i]) {
        Some(0)
    } else if 0 <= i < s.len() && is_string_prefix1(s[i]) {
        if i + 1 < s.len() && is_quote(s[i + 1]) {
            Some(1)
        } else if i + 2 < s.len() && is_string_prefix2(s[i + 1])
            && is_quote(s[i + 2]) {
            Some(2)
        } else {
            None
        }
    } else {
        None
    }
}

/// Length of the bytes prefix `[bB][rR]?` or `[rR][bB]` that is followed by a quote.
pub open spec fn bytes_prefix(s: Seq<char>, i: int) -> Option<nat> {
    if at(s, i, 'b') || at(s, i, 'B') {
        if i + 1 < s.len() && is_quote(s[i + 1]) {
            Some(1)
        } else if (at(s, i + 1, 'r') || at(s, i + 1, 'R')) && i + 2 < s.len() && is_quote(s[i + 2]) {
            Some(2)
        } else {
            None
        }
    } else if (at(s, i, 'r') || at(s, i, 'R')) && (at(s, i + 1, 'b') || at(s, i + 1, 'B'))
        && i + 2 < s.len() && is_quote(s[i + 2]) {
        Some(2)
    } else {
        None
    }
}

/// Length of the string literal at `i` (0 when none matches).
pub open spec fn string_len(s: Seq<char>, i: int) -> nat {
    match string_prefix(s, i) {
        Some(p) => match quoted_end(s, i + p) {
            Some(e) => (e - i) as nat,
            None => 0,
        },
        None => 0,
    }
}

/// Length of the bytes literal at `i` (0 when none matches).
pub open spec fn bytes_len(s: Seq<char>, i: int) -> nat {
    match bytes_prefix(s, i) {
        Some(p) => match single_end(s, i + p + 1, s[i + p]) {
            Some(e) => (e - i) as nat,
            None => 0,
        },
        None => 0,
    }
}

// === Names and keywords ===

/// The keyword or reserved word spelled by `w`, if any.
pub open spec fn keyword_kind(w: Seq<char>) -> Option<TokenKind> {
    if w == "component"@ {
        Some(TokenKind::Component)
    } else if w == "module"@ {
        Some(TokenKind::Module)
    } else if w == "interface"@ {
        Some(TokenKind::Interface)
    } else if w == "pin"@ {
        Some(TokenKind::Pin)
    } else if w == "signal"@ {
        Some(TokenKind::Signal)
    } else if w == "new"@ {
        Some(TokenKind::New)
    } else if w == "from"@ {
        Some(TokenKind::From)
    } else if w == "import"@ {
        Some(TokenKind::Import)
    } else if w == "for"@ {
        Some(TokenKind::For)
    } else if w == "in"@ {
        Some(TokenKind::In)
    } else if w == "assert"@ {
        Some(TokenKind::Assert)
    } else if w == "to"@ {
        Some(TokenKind::To)
    } else if w == "True"@ {
        Some(TokenKind::True)
    } else if w == "False"@ {
        Some(TokenKind::False)
    } else if w == "within"@ {
        Some(TokenKind::Within)
    } else if w == "is"@ {
        Some(TokenKind::Is)
    } else if w == "pass"@ {
        Some(TokenKind::Pass)
    } else if w == "trait"@ {
        Some(TokenKind::Trait)
    } else if w == "int"@ {
        Some(TokenKind::Int)
    } else if w == "float"@ {
        Some(TokenKind::Float)
    } else if w == "string"@ {
        Some(TokenKind::StringKw)
    } else if w == "str"@ {
        Some(TokenKind::Str)
    } else if w == "bytes"@ {
        Some(TokenKind::Bytes)
    } else if w == "if"@ {
        Some(TokenKind::If)
    } else if w == "parameter"@ {
        Some(TokenKind::Parameter)
    } else if w == "param"@ {
        Some(TokenKind::Param)
    } else if w == "test"@ {
        Some(TokenKind::Test)
    } else if w == "require"@ {
        Some(TokenKind::Require)
    } else if w == "requires"@ {
        Some(TokenKind::Requires)
    } else if w == "check"@ {
        Some(TokenKind::Check)
    } else if w == "report"@ {
        Some(TokenKind::Report)
    } else if w == "ensure"@ {
        Some(TokenKind::Ensure)
    } else {
        None
    }
}

/// Length of the identifier `[a-zA-Z_][a-zA-Z0-9_]*` at `i` (0 when none).
pub open spec fn ident_len(s: Seq<char>, i: int) -> nat {
    if 0 <= i < s.len() && in_class(CharClass::Letter, s[i]) {
        1 + class_run(s, i + 1, CharClass::IdentChar)
    } else {
        0
    }
}

/// The token that starts with the letter or underscore at `i`.
pub open spec fn scan_word(s: Seq<char>, i: int) -> (TokenKind, nat) {
    let n = ident_len(s, i);
    if string_len(s, i) > 0 {
        (TokenKind::String, string_len(s, i))
    } else if bytes_len(s, i) > 0 {
        (TokenKind::BytesLiteral, bytes_len(s, i))
    } else {
        match keyword_kind(s.subrange(i, i + n)) {
            Some(k) => (k, n),
            None => (TokenKind::Name, n),
        }
    }
}

// === Operators and delimiters ===

/// The operator or delimiter at `i`, if one starts there.
pub open spec fn scan_punct(s: Seq<char>, i: int) -> Option<(TokenKind, nat)> {
    let c = s[i];
    if c == '~' {
        if at(s, i + 1, '>') { Some((TokenKind::Sperm, 2)) } else { Some((TokenKind::Wire, 1)) }
    } else if c == '<' {
        if at(s, i + 1, '~') {
            Some((TokenKind::LSperm, 2))
        } else if at(s, i + 1, '>') {
            Some((TokenKind::NotEqAlt, 2))
        } else if at(s, i + 1, '<') {
            if at(s, i + 2, '=') { Some((TokenKind::LeftShiftAssign, 3)) } else { Some((TokenKind::LeftShift, 2)) }
        } else if at(s, i + 1, '=') {
            Some((TokenKind::LessEq, 2))
        } else {
            Some((TokenKind::LessThan, 1))
        }
    } else if c == '>' {
        if at(s, i + 1, '>') {
            if at(s, i + 2, '=') { Some((TokenKind::RightShiftAssign, 3)) } else { Some((TokenKind::RightShift, 2)) }
        } else if at(s, i + 1, '=') {
            Some((TokenKind::GreaterEq, 2))
        } else {
            Some((TokenKind::GreaterThan, 1))
        }
    } else if c == '=' {
        if at(s, i + 1, '=') { Some((TokenKind::Equals, 2)) } else { Some((TokenKind::Assign, 1)) }
    } else if c == '!' {
        if at(s, i + 1, '=') { Some((TokenKind::NotEq, 2)) } else { None }
    } else if c == '+' {
        if at(s, i + 1, '=') {
            Some((TokenKind::AddAssign, 2))
        } else if at(s, i + 1, '/') && at(s, i + 2, '-') {
            Some((TokenKind::PlusOrMinus, 3))
        } else {
            Some((TokenKind::Plus, 1))
        }
    } else if c == '-' {
        if at(s, i + 1, '=') {
            Some((TokenKind::SubAssign, 2))
        } else if at(s, i + 1, '>') {
            Some((TokenKind::Arrow, 2))
        } else {
            Some((TokenKind::Minus, 1))
        }
    } else if c == '*' {
        if at(s, i + 1, '*') {
            if at(s, i + 2, '=') { Some((TokenKind::PowerAssign, 3)) } else { Some((TokenKind::Power, 2)) }
        } else if at(s, i + 1, '=') {
            Some((TokenKind::MultAssign, 2))
        } else {
            Some((TokenKind::Star, 1))
        }
    } else if c == '/' {
        if at(s, i + 1, '/') {
            if at(s, i + 2, '=') { Some((TokenKind::IDivAssign, 3)) } else { Some((TokenKind::IDiv, 2)) }
        } else if at(s, i + 1, '=') {
            Some((TokenKind::DivAssign, 2))
        } else {
            Some((TokenKind::Div, 1))
        }
    } else if c == '@' {
        if at(s, i + 1, '=') { Some((TokenKind::AtAssign, 2)) } else { Some((TokenKind::At, 1)) }
    } else if c == '&' {
        if at(s, i + 1, '=') { Some((TokenKind::AndAssign, 2)) } else { Some((TokenKind::AndOp, 1)) }
    } else if c == '|' {
        if at(s, i + 1, '=') { Some((TokenKind::OrAssign, 2)) } else { Some((TokenKind::OrOp, 1)) }
    } else if c == '^' {
        if at(s, i + 1, '=') { Some((TokenKind::XorAssign, 2)) } else { Some((TokenKind::Xor, 1)) }
    } else if c == '%' {
        Some((TokenKind::Percent, 1))
    } else if c == ':' {
        if at(s, i + 1, ':') { Some((TokenKind::DoubleColon, 2)) } else { Some((TokenKind::Colon, 1)) }
    } else if c == '.' {
        if at(s, i + 1, '.') && at(s, i + 2, '.') { Some((TokenKind::Ellipsis, 3)) } else { Some((TokenKind::Dot, 1)) }
    } else if c == '(' {
        Some((TokenKind::OpenParen, 1))
    } else if c == ')' {
        Some((TokenKind::CloseParen, 1))
    } else if c == '[' {
        Some((TokenKind::OpenBracket, 1))
    } else if c == ']' {
        Some((TokenKind::CloseBracket, 1))
    } else if c == '{' {
        Some((TokenKind::OpenBrace, 1))
    } else if c == '}' {
        Some((TokenKind::CloseBrace, 1))
    } else if c == ';' {
        Some((TokenKind::Semicolon, 1))
    } else if c == ',' {
        Some((TokenKind::Comma, 1))
    } else if c == '\u{B1}' {
        Some((TokenKind::PlusOrMinus, 1))
    } else {
        None
    }
}

// === Whitespace, comments and line structure ===

/// The token that starts with the character at `i` when it is not a letter,
/// digit, quote or operator: comments, pragmas, line joins, blanks, newlines;
/// any other character is a one-character error token.
pub open spec fn scan_other(s: Seq<char>, i: int) -> (TokenKind, nat) {
    let c = s[i];
    if c == '#' {
        let n = 1 + class_run(s, i + 1, CharClass::NotLineEnd);
        if i + 7 <= s.len() && s.subrange(i, i + 7) == "#pragma"@ {
            (TokenKind::Pragma, n)
        } else {
            (TokenKind::Comment, n)
        }
    } else if c == '\\' {
        let m = class_run(s, i + 1, CharClass::SpaceTab);
        if at(s, i + 1 + m, '\n') {
            (TokenKind::ExplicitLineJoining, m + 2)
        } else if at(s, i + 1 + m, '\r') && at(s, i + 2 + m, '\n') {
            (TokenKind::ExplicitLineJoining, m + 3)
        } else {
            (TokenKind::Error, 1)
        }
    } else if in_class(CharClass::Blank, c) {
        (TokenKind::Whitespace, class_run(s, i, CharClass::Blank))
    } else if c == '\n' {
        (TokenKind::Newline, 1)
    } else if c == '\r' && at(s, i + 1, '\n') {
        (TokenKind::Newline, 2)
    } else {
        (TokenKind::Error, 1)
    }
}

/// The raw token that starts at `i` (for `0 <= i < s.len()`): its kind and its
/// length in characters.
pub open spec fn scan(s: Seq<char>, i: int) -> (TokenKind, nat) {
    let c = s[i];
    if is_digit(c) {
        scan_number(s, i)
    } else if in_class(CharClass::Letter, c) {
        scan_word(s, i)
    } else if is_quote(c) {
        if string_len(s, i) > 0 { (TokenKind::String, string_len(s, i)) } else { (TokenKind::Error, 1) }
    } else if scan_punct(s, i).is_some() {
        scan_punct(s, i).unwrap()
    } else {
        scan_other(s, i)
    }
}

// === Executable scanner ===

fn in_class_exec(cls: CharClass, c: char) -> (b: bool)
    ensures
        b == in_class(cls, c),
{
    match cls {
        CharClass::Digit => '0' <= c && c <= '9',
        CharClass::HexDigit => ('0' <= c && c <= '9') || ('a' <= c && c <= 'f') || ('A' <= c && c <= 'F'),
        CharClass::BinDigit => c == '0' || c == '1',
        CharClass::OctDigit => '0' <= c && c <= '7',
        CharClass::IdentChar => ('a' <= c && c <= 'z') || ('A' <= c && c <= 'Z') || ('0' <= c && c <= '9') || c == '_',
        CharClass::Letter => ('a' <= c && c <= 'z') || ('A' <= c && c <= 'Z') || c == '_',
        CharClass::Blank => c == ' ' || c == '\t' || c == '\x0C',
        CharClass::SpaceTab => c == ' ' || c == '\t',
        CharClass::NotLineEnd => c != '\r' && c != '\n',
    }
}

proof fn lemma_class_run_bound(s: Seq<char>, i: int, cls: CharClass)
    requires
        0 <= i,
    ensures
        i + class_run(s, i, cls) <= if i <= s.len() { s.len() as int } else { i },
    decreases s.len() - i,
{
    if 0 <= i < s.len() && in_class(cls, s[i]) {
        lemma_class_run_bound(s, i + 1, cls);
    }
}

/// Number of consecutive characters of class `cls` in `v` starting at `i`.
pub fn class_run_at(v: &Vec<char>, i: usize, cls: CharClass) -> (n: usize)
    requires
        i <= v.len(),
    ensures
        n == class_run(v@, i as int, cls),
        i + n <= v.len(),
{
    let mut j = i;
    while j < v.len() && in_class_exec(cls, v[j])
        invariant
            i <= j <= v.len(),
            class_run(v@, i as int, cls) == (j - i) + class_run(v@, j as int, cls),
        decreases v.len() - j,
    {
        j = j + 1;
    }
    j - i
}

/// Whether `v[i + k]` exists and is `c`.
fn at_exec(v: &Vec<char>, i: usize, k: usize, c: char) -> (b: bool)
    ensures
        b == at(v@, i + k, c),
{
    i < v.len() && k < v.len() - i && v[i + k] == c
}

fn frac_len_exec(v: &Vec<char>, i: usize) -> (n: usize)
    requires
        i <= v.len(),
    ensures
        n == frac_len(v@, i as int),
        i + n <= v.len(),
{
    if at_exec(v, i, 0, '.') {
        let d = class_run_at(v, i + 1, CharClass::Digit);
        if d > 0 {
            return 1 + d;
        }
    }
    0
}

fn exp_len_exec(v: &Vec<char>, i: usize) -> (n: usize)
    requires
        i <= v.len(),
    ensures
        n == exp_len(v@, i as int),
        i + n <= v.len(),
{
    if at_exec(v, i, 0, 'e') || at_exec(v, i, 0, 'E') {
        let sign: usize = if at_exec(v, i, 1, '+') || at_exec(v, i, 1, '-') { 1 } else { 0 };
        let d = class_run_at(v, i + 1 + sign, CharClass::Digit);
        if d > 0 {
            return 1 + sign + d;
        }
    }
    0
}

fn mantissa_len_exec(v: &Vec<char>, i: usize) -> (n: usize)
    requires
        i <= v.len(),
    ensures
        n == mantissa_len(v@, i as int),
        i + n <= v.len(),
{
    let d = class_run_at(v, i, CharClass::Digit);
    if d == 0 {
        return 0;
    }
    let f = frac_len_exec(v, i + d);
    let e = exp_len_exec(v, i + d + f);
    d + f + e
}

fn scan_number_exec(v: &Vec<char>, i: usize) -> (r: (TokenKind, usize))
    requires
        i < v.len(),
    ensures
        r.0 == scan_number(v@, i as int).0,
        r.1 == scan_number(v@, i as int).1,
        i + r.1 <= v.len(),
{
    let m = mantissa_len_exec(v, i);
    let dl = if m == 0 { 0 } else { m + class_run_at(v, i + m, CharClass::Letter) };
    let il = if m > 0 && (at_exec(v, i, m, 'j') || at_exec(v, i, m, 'J')) { m + 1 } else { 0 };
    let mut rl: usize = 0;
    if at_exec(v, i, 0, '0') && 2 <= v.len() - i {
        let hx = class_run_at(v, i + 2, CharClass::HexDigit);
        let bn = class_run_at(v, i + 2, CharClass::BinDigit);
        let oc = class_run_at(v, i + 2, CharClass::OctDigit);
        if (at_exec(v, i, 1, 'x') || at_exec(v, i, 1, 'X')) && hx > 0 {
            rl = 2 + hx;
        } else if (at_exec(v, i, 1, 'b') || at_exec(v, i, 1, 'B')) && bn > 0 {
            rl = 2 + bn;
        } else if (at_exec(v, i, 1, 'o') || at_exec(v, i, 1, 'O')) && oc > 0 {
            rl = 2 + oc;
        }
    }
    proof {
        if at(v@, i as int, '0') && i + 2 > v.len() {
            assert(class_run(v@, i + 2, CharClass::HexDigit) == 0);
            assert(class_run(v@, i + 2, CharClass::BinDigit) == 0);
            assert(class_run(v@, i + 2, CharClass::OctDigit) == 0);
        }
    }
    if il > 0 && il >= dl {
        (TokenKind::ImagNumber, il)
    } else if rl > dl {
        (TokenKind::Number, rl)
    } else {
        (TokenKind::Number, dl)
    }
}

fn single_end_exec(v: &Vec<char>, k: usize, q: char) -> (e: Option<usize>)
    requires
        k <= v.len(),
    ensures
        e matches Some(x) ==> single_end(v@, k as int, q) == Some(x as int) && k < x <= v.len(),
        e is None ==> single_end(v@, k as int, q) is None,
{
    let mut j = k;
    while j < v.len()
        invariant
            k <= j <= v.len() + 1,
            single_end(v@, k as int, q) == single_end(v@, j as int, q),
        decreases v.len() - j,
    {
        if v[j] == q {
            return Some(j + 1);
        } else if v[j] == '\\' {
            if j + 1 < v.len() && v[j + 1] != '\n' {
                j = j + 2;
                if j > v.len() {
                    return None;
                }
            } else {
                return None;
            }
        } else {
            j = j + 1;
        }
    }
    None
}

fn triple_end_exec(v: &Vec<char>, k: usize, q: char) -> (e: Option<usize>)
    requires
        k <= v.len(),
    ensures
        e matches Some(x) ==> triple_end(v@, k as int, q) == Some(x as int) && k < x <= v.len(),
        e is None ==> triple_end(v@, k as int, q) is None,
{
    let mut j = k;
    while j < v.len()
        invariant
            k <= j <= v.len(),
            triple_end(v@, k as int, q) == triple_end(v@, j as int, q),
        decreases v.len() - j,
    {
        if v[j] == q {
            if j + 1 < v.len() && v[j + 1] != q {
                j = j + 2;
            } else if j + 1 < v.len() {
                if j + 2 < v.len() && v[j + 2] != q {
                    j = j + 3;
                } else if j + 2 < v.len() {
                    return Some(j + 3);
                } else {
                    return None;
                }
            } else {
                return None;
            }
        } else if v[j] == '\\' {
            if j + 1 < v.len() && v[j + 1] != '\n' {
                j = j + 2;
            } else {
                return None;
            }
        } else {
            j = j + 1;
        }
    }
    None
}

fn quoted_end_exec(v: &Vec<char>, j: usize) -> (e: Option<usize>)
    requires
        j < v.len(),
    ensures
        e matches Some(x) ==> quoted_end(v@, j as int) == Some(x as int) && j < x <= v.len(),
        e is None ==> quoted_end(v@, j as int) is None,
{
    let q = v[j];
    if at_exec(v, j, 1, q) && at_exec(v, j, 2, q) {
        let t = triple_end_exec(v, j + 3, q);
        if t.is_some() {
            return t;
        }
    }
    single_end_exec(v, j + 1, q)
}

fn is_quote_exec(c: char) -> (b: bool)
    ensures
        b == is_quote(c),
{
    c == '\'' || c == '"'
}

fn string_prefix_exec(v: &Vec<char>, i: usize) -> (p: Option<usize>)
    requires
        i < v.len(),
    ensures
        p matches Some(x) ==> string_prefix(v@, i as int) == Some(x as nat) && i + x < v.len(),
        p is None ==> string_prefix(v@, i as int) is None,
{
    let c = v[i];
    if is_quote_exec(c) {
        return Some(0);
    }
    let first = c == 'r' || c == 'R' || c == 'u' || c == 'U' || c == 'f' || c == 'F';
    if first {
        if i + 1 < v.len() && is_quote_exec(v[i + 1]) {
            return Some(1);
        }
        if 2 < v.len() - i {
            let d = v[i + 1];
            let second = d == 'r' || d == 'R' || d == 'f' || d == 'F';
            if second && is_quote_exec(v[i + 2]) {
                return Some(2);
            }
        }
    }
    None
}

fn bytes_prefix_exec(v: &Vec<char>, i: usize) -> (p: Option<usize>)
    requires
        i < v.len(),
    ensures
        p matches Some(x) ==> bytes_prefix(v@, i as int) == Some(x as nat) && i + x < v.len(),
        p is None ==> bytes_prefix(v@, i as int) is None,
{
    if at_exec(v, i, 0, 'b') || at_exec(v, i, 0, 'B') {
        if i + 1 < v.len() && is_quote_exec(v[i + 1]) {
            return Some(1);
        } else if (at_exec(v, i, 1, 'r') || at_exec(v, i, 1, 'R')) && i + 2 < v.len()
            && is_quote_exec(v[i + 2]) {
            return Some(2);
        } else {
            return None;
        }
    } else if (at_exec(v, i, 0, 'r') || at_exec(v, i, 0, 'R')) && (at_exec(v, i, 1, 'b')
        || at_exec(v, i, 1, 'B')) && i + 2 < v.len() && is_quote_exec(v[i + 2]) {
        return Some(2);
    }
    None
}

fn string_len_exec(v: &Vec<char>, i: usize) -> (n: usize)
    requires
        i < v.len(),
    ensures
        n == string_len(v@, i as int),
        i + n <= v.len(),
{
    match string_prefix_exec(v, i) {
        Some(p) => match quoted_end_exec(v, i + p) {
            Some(e) => e - i,
            None => 0,
        },
        None => 0,
    }
}

fn bytes_len_exec(v: &Vec<char>, i: usize) -> (n: usize)
    requires
        i < v.len(),
    ensures
        n == bytes_len(v@, i as int),
        i + n <= v.len(),
{
    match bytes_prefix_exec(v, i) {
        Some(p) => match single_end_exec(v, i + p + 1, v[i + p]) {
            Some(e) => e - i,
            None => 0,
        },
        None => 0,
    }
}

/// Whether `v[from..to]` spells `lit`.
pub fn chars_eq_lit(v: &Vec<char>, from: usize, to: usize, lit: &str) -> (b: bool)
    requires
        from <= to <= v.len(),
    ensures
        b == (v@.subrange(from as int, to as int) == lit@),
{
    let w = crate::text::chars_of(lit);
    if w.len() != to - from {
        assert(v@.subrange(from as int, to as int).len() != lit@.len());
        return false;
    }
    let mut k: usize = 0;
    while k < w.len()
        invariant
            w@ == lit@,
            w.len() == to - from,
            from <= to <= v.len(),
            k <= w.len(),
            forall|j: int| 0 <= j < k ==> v@[from + j] == w@[j],
        decreases w.len() - k,
    {
        if v[from + k] != w[k] {
            assert(v@.subrange(from as int, to as int)[k as int] != lit@[k as int]);
            return false;
        }
        k = k + 1;
    }
    assert(v@.subrange(from as int, to as int) =~= lit@);
    true
}

fn keyword_kind_exec(v: &Vec<char>, from: usize, to: usize) -> (k: Option<TokenKind>)
    requires
        from <= to <= v.len(),
    ensures
        k == keyword_kind(v@.subrange(from as int, to as int)),
{
    if chars_eq_lit(v, from, to, "component") {
        return Some(TokenKind::Component);
    }
    if chars_eq_lit(v, from, to, "module") {
        return Some(TokenKind::Module);
    }
    if chars_eq_lit(v, from, to, "interface") {
        return Some(TokenKind::Interface);
    }
    if chars_eq_lit(v, from, to, "pin") {
        return Some(TokenKind::Pin);
    }
    if chars_eq_lit(v, from, to, "signal") {
        return Some(TokenKind::Signal);
    }
    if chars_eq_lit(v, from, to, "new") {
        return Some(TokenKind::New);
    }
    if chars_eq_lit(v, from, to, "from") {
        return Some(TokenKind::From);
    }
    if chars_eq_lit(v, from, to, "import") {
        return Some(TokenKind::Import);
    }
    if chars_eq_lit(v, from, to, "for") {
        return Some(TokenKind::For);
    }
    if chars_eq_lit(v, from, to, "in") {
        return Some(TokenKind::In);
    }
    if chars_eq_lit(v, from, to, "assert") {
        return Some(TokenKind::Assert);
    }
    if chars_eq_lit(v, from, to, "to") {
        return Some(TokenKind::To);
    }
    if chars_eq_lit(v, from, to, "True") {
        return Some(TokenKind::True);
    }
    if chars_eq_lit(v, from, to, "False") {
        return Some(TokenKind::False);
    }
    if chars_eq_lit(v, from, to, "within") {
        return Some(TokenKind::Within);
    }
    if chars_eq_lit(v, from, to, "is") {
        return Some(TokenKind::Is);
    }
    if chars_eq_lit(v, from, to, "pass") {
        return Some(TokenKind::Pass);
    }
    if chars_eq_lit(v, from, to, "trait") {
        return Some(TokenKind::Trait);
    }
    if chars_eq_lit(v, from, to, "int") {
        return Some(TokenKind::Int);
    }
    if chars_eq_lit(v, from, to, "float") {
        return Some(TokenKind::Float);
    }
    if chars_eq_lit(v, from, to, "string") {
        return Some(TokenKind::StringKw);
    }
    if chars_eq_lit(v, from, to, "str") {
        return Some(TokenKind::Str);
    }
    if chars_eq_lit(v, from, to, "bytes") {
        return Some(TokenKind::Bytes);
    }
    if chars_eq_lit(v, from, to, "if") {
        return Some(TokenKind::If);
    }
    if chars_eq_lit(v, from, to, "parameter") {
        return Some(TokenKind::Parameter);
    }
    if chars_eq_lit(v, from, to, "param") {
        return Some(TokenKind::Param);
    }
    if chars_eq_lit(v, from, to, "test") {
        return Some(TokenKind::Test);
    }
    if chars_eq_lit(v, from, to, "require") {
        return Some(TokenKind::Require);
    }
    if chars_eq_lit(v, from, to, "requires") {
        return Some(TokenKind::Requires);
    }
    if chars_eq_lit(v, from, to, "check") {
        return Some(TokenKind::Check);
    }
    if chars_eq_lit(v, from, to, "report") {
        return Some(TokenKind::Report);
    }
    if chars_eq_lit(v, from, to, "ensure") {
        return Some(TokenKind::Ensure);
    }
    None
}

fn scan_word_exec(v: &Vec<char>, i: usize) -> (r: (TokenKind, usize))
    requires
        i < v.len(),
        in_class(CharClass::Letter, v@[i as int]),
    ensures
        r.0 == scan_word(v@, i as int).0,
        r.1 == scan_word(v@, i as int).1,
        i + r.1 <= v.len(),
{
    let sl = string_len_exec(v, i);
    if sl > 0 {
        return (TokenKind::String, sl);
    }
    let bl = bytes_len_exec(v, i);
    if bl > 0 {
        return (TokenKind::BytesLiteral, bl);
    }
    let n = 1 + class_run_at(v, i + 1, CharClass::IdentChar);
    match keyword_kind_exec(v, i, i + n) {
        Some(k) => (k, n),
        None => (TokenKind::Name, n),
    }
}

fn scan_punct_exec(v: &Vec<char>, i: usize) -> (r: Option<(TokenKind, usize)>)
    requires
        i < v.len(),
    ensures
        r is None ==> scan_punct(v@, i as int) is None,
        r matches Some(x) ==> scan_punct(v@, i as int) == Some((x.0, x.1 as nat)) && i + x.1 <= v.len(),
{
    let c = v[i];
    if c == '~' {
        if at_exec(v, i, 1, '>') { Some((TokenKind::Sperm, 2)) } else { Some((TokenKind::Wire, 1)) }
    } else if c == '<' {
        if at_exec(v, i, 1, '~') {
            Some((TokenKind::LSperm, 2))
        } else if at_exec(v, i, 1, '>') {
            Some((TokenKind::NotEqAlt, 2))
        } else if at_exec(v, i, 1, '<') {
            if at_exec(v, i, 2, '=') { Some((TokenKind::LeftShiftAssign, 3)) } else { Some((TokenKind::LeftShift, 2)) }
        } else if at_exec(v, i, 1, '=') {
            Some((TokenKind::LessEq, 2))
        } else {
            Some((TokenKind::LessThan, 1))
        }
    } else if c == '>' {
        if at_exec(v, i, 1, '>') {
            if at_exec(v, i, 2, '=') { Some((TokenKind::RightShiftAssign, 3)) } else { Some((TokenKind::RightShift, 2)) }
        } else if at_exec(v, i, 1, '=') {
            Some((TokenKind::GreaterEq, 2))
        } else {
            Some((TokenKind::GreaterThan, 1))
        }
    } else if c == '=' {
        if at_exec(v, i, 1, '=') { Some((TokenKind::Equals, 2)) } else { Some((TokenKind::Assign, 1)) }
    } else if c == '!' {
        if at_exec(v, i, 1, '=') { Some((TokenKind::NotEq, 2)) } else { None }
    } else if c == '+' {
        if at_exec(v, i, 1, '=') {
            Some((TokenKind::AddAssign, 2))
        } else if at_exec(v, i, 1, '/') && at_exec(v, i, 2, '-') {
            Some((TokenKind::PlusOrMinus, 3))
        } else {
            Some((TokenKind::Plus, 1))
        }
    } else if c == '-' {
        if at_exec(v, i, 1, '=') {
            Some((TokenKind::SubAssign, 2))
        } else if at_exec(v, i, 1, '>') {
            Some((TokenKind::Arrow, 2))
        } else {
            Some((TokenKind::Minus, 1))
        }
    } else if c == '*' {
        if at_exec(v, i, 1, '*') {
            if at_exec(v, i, 2, '=') { Some((TokenKind::PowerAssign, 3)) } else { Some((TokenKind::Power, 2)) }
        } else if at_exec(v, i, 1, '=') {
            Some((TokenKind::MultAssign, 2))
        } else {
            Some((TokenKind::Star, 1))
        }
    } else if c == '/' {
        if at_exec(v, i, 1, '/') {
            if at_exec(v, i, 2, '=') { Some((TokenKind::IDivAssign, 3)) } else { Some((TokenKind::IDiv, 2)) }
        } else if at_exec(v, i, 1, '=') {
            Some((TokenKind::DivAssign, 2))
        } else {
            Some((TokenKind::Div, 1))
        }
    } else if c == '@' {
        if at_exec(v, i, 1, '=') { Some((TokenKind::AtAssign, 2)) } else { Some((TokenKind::At, 1)) }
    } else if c == '&' {
        if at_exec(v, i, 1, '=') { Some((TokenKind::AndAssign, 2)) } else { Some((TokenKind::AndOp, 1)) }
    } else if c == '|' {
        if at_exec(v, i, 1, '=') { Some((TokenKind::OrAssign, 2)) } else { Some((TokenKind::OrOp, 1)) }
    } else if c == '^' {
        if at_exec(v, i, 1, '=') { Some((TokenKind::XorAssign, 2)) } else { Some((TokenKind::Xor, 1)) }
    } else if c == '%' {
        Some((TokenKind::Percent, 1))
    } else if c == ':' {
        if at_exec(v, i, 1, ':') { Some((TokenKind::DoubleColon, 2)) } else { Some((TokenKind::Colon, 1)) }
    } else if c == '.' {
        if at_exec(v, i, 1, '.') && at_exec(v, i, 2, '.') { Some((TokenKind::Ellipsis, 3)) } else { Some((TokenKind::Dot, 1)) }
    } else if c == '(' {
        Some((TokenKind::OpenParen, 1))
    } else if c == ')' {
        Some((TokenKind::CloseParen, 1))
    } else if c == '[' {
        Some((TokenKind::OpenBracket, 1))
    } else if c == ']' {
        Some((TokenKind::CloseBracket, 1))
    } else if c == '{' {
        Some((TokenKind::OpenBrace, 1))
    } else if c == '}' {
        Some((TokenKind::CloseBrace, 1))
    } else if c == ';' {
        Some((TokenKind::Semicolon, 1))
    } else if c == ',' {
        Some((TokenKind::Comma, 1))
    } else if c == '\u{B1}' {
        Some((TokenKind::PlusOrMinus, 1))
    } else {
        None
    }
}

fn scan_other_exec(v: &Vec<char>, i: usize) -> (r: (TokenKind, usize))
    requires
        i < v.len(),
    ensures
        r.0 == scan_other(v@, i as int).0,
        r.1 == scan_other(v@, i as int).1,
        i + r.1 <= v.len(),
        r.1 >= 1,
{
    let c = v[i];
    if c == '#' {
        let n = 1 + class_run_at(v, i + 1, CharClass::NotLineEnd);
        if 7 <= v.len() - i && chars_eq_lit(v, i, i + 7, "#pragma") {
            (TokenKind::Pragma, n)
        } else {
            (TokenKind::Comment, n)
        }
    } else if c == '\\' {
        let m = class_run_at(v, i + 1, CharClass::SpaceTab);
        if at_exec(v, i + 1, m, '\n') {
            (TokenKind::ExplicitLineJoining, m + 2)
        } else if at_exec(v, i + 1, m, '\r') && at_exec(v, i + 2, m, '\n') {
            (TokenKind::ExplicitLineJoining, m + 3)
        } else {
            (TokenKind::Error, 1)
        }
    } else if in_class_exec(CharClass::Blank, c) {
        (TokenKind::Whitespace, class_run_at(v, i, CharClass::Blank))
    } else if c == '\n' {
        (TokenKind::Newline, 1)
    } else if c == '\r' && at_exec(v, i, 1, '\n') {
        (TokenKind::Newline, 2)
    } else {
        (TokenKind::Error, 1)
    }
}

/// The raw token that starts at `i`: its kind and its length in characters.
pub fn scan_at(v: &Vec<char>, i: usize) -> (r: (TokenKind, usize))
    requires
        i < v.len(),
    ensures
        r.0 == scan(v@, i as int).0,
        r.1 == scan(v@, i as int).1,
        1 <= r.1,
        i + r.1 <= v.len(),
{
    let c = v[i];
    if '0' <= c && c <= '9' {
        scan_number_exec(v, i)
    } else if in_class_exec(CharClass::Letter, c) {
        scan_word_exec(v, i)
    } else if is_quote_exec(c) {
        let n = string_len_exec(v, i);
        if n > 0 { (TokenKind::String, n) } else { (TokenKind::Error, 1) }
    } else {
        match scan_punct_exec(v, i) {
            Some(x) => x,
            None => scan_other_exec(v, i),
        }
    }
}


// === Keywords spelled alone ===

/// The spelling of each keyword and reserved word is a run of identifier
/// characters that starts with a letter.
proof fn lemma_keyword_spelling(k: TokenKind)
    requires
        spec_is_keyword(k) || spec_is_reserved(k),
    ensures
        spec_kind_name(k).len() > 0,
        in_class(CharClass::Letter, spec_kind_name(k)[0]),
        class_run(spec_kind_name(k), 0, CharClass::IdentChar) == spec_kind_name(k).len(),
{
    reveal_with_fuel(class_run, 10);
    match k {
        TokenKind::Component => {
            reveal_strlit("component");
            assert("component"@.len() == 9 && "component"@[0] == 'c' && "component"@[1] == 'o' && "component"@[2] == 'm' && "component"@[3] == 'p' && "component"@[4] == 'o' && "component"@[5] == 'n' && "component"@[6] == 'e' && "component"@[7] == 'n' && "component"@[8] == 't');
        },
        TokenKind::Module => {
            reveal_strlit("module");
            assert("module"@.len() == 6 && "module"@[0] == 'm' && "module"@[1] == 'o' && "module"@[2] == 'd' && "module"@[3] == 'u' && "module"@[4] == 'l' && "module"@[5] == 'e');
        },
        TokenKind::Interface => {
            reveal_strlit("interface");
            assert("interface"@.len() == 9 && "interface"@[0] == 'i' && "interface"@[1] == 'n' && "interface"@[2] == 't' && "interface"@[3] == 'e' && "interface"@[4] == 'r' && "interface"@[5] == 'f' && "interface"@[6] == 'a' && "interface"@[7] == 'c' && "interface"@[8] == 'e');
        },
        TokenKind::Pin => {
            reveal_strlit("pin");
            assert("pin"@.len() == 3 && "pin"@[0] == 'p' && "pin"@[1] == 'i' && "pin"@[2] == 'n');
        },
        TokenKind::Signal => {
            reveal_strlit("signal");
            assert("signal"@.len() == 6 && "signal"@[0] == 's' && "signal"@[1] == 'i' && "signal"@[2] == 'g' && "signal"@[3] == 'n' && "signal"@[4] == 'a' && "signal"@[5] == 'l');
        },
        TokenKind::New => {
            reveal_strlit("new");
            assert("new"@.len() == 3 && "new"@[0] == 'n' && "new"@[1] == 'e' && "new"@[2] == 'w');
        },
        TokenKind::From => {
            reveal_strlit("from");
            assert("from"@.len() == 4 && "from"@[0] == 'f' && "from"@[1] == 'r' && "from"@[2] == 'o' && "from"@[3] == 'm');
        },
        TokenKind::Import => {
            reveal_strlit("import");
            assert("import"@.len() == 6 && "import"@[0] == 'i' && "import"@[1] == 'm' && "import"@[2] == 'p' && "import"@[3] == 'o' && "import"@[4] == 'r' && "import"@[5] == 't');
        },
        TokenKind::For => {
            reveal_strlit("for");
            assert("for"@.len() == 3 && "for"@[0] == 'f' && "for"@[1] == 'o' && "for"@[2] == 'r');
        },
        TokenKind::In => {
            reveal_strlit("in");
            assert("in"@.len() == 2 && "in"@[0] == 'i' && "in"@[1] == 'n');
        },
        TokenKind::Assert => {
            reveal_strlit("assert");
            assert("assert"@.len() == 6 && "assert"@[0] == 'a' && "assert"@[1] == 's' && "assert"@[2] == 's' && "assert"@[3] == 'e' && "assert"@[4] == 'r' && "assert"@[5] == 't');
        },
        TokenKind::To => {
            reveal_strlit("to");
            assert("to"@.len() == 2 && "to"@[0] == 't' && "to"@[1] == 'o');
        },
        TokenKind::True => {
            reveal_strlit("True");
            assert("True"@.len() == 4 && "True"@[0] == 'T' && "True"@[1] == 'r' && "True"@[2] == 'u' && "True"@[3] == 'e');
        },
        TokenKind::False => {
            reveal_strlit("False");
            assert("False"@.len() == 5 && "False"@[0] == 'F' && "False"@[1] == 'a' && "False"@[2] == 'l' && "False"@[3] == 's' && "False"@[4] == 'e');
        },
        TokenKind::Within => {
            reveal_strlit("within");
            assert("within"@.len() == 6 && "within"@[0] == 'w' && "within"@[1] == 'i' && "within"@[2] == 't' && "within"@[3] == 'h' && "within"@[4] == 'i' && "within"@[5] == 'n');
        },
        TokenKind::Is => {
            reveal_strlit("is");
            assert("is"@.len() == 2 && "is"@[0] == 'i' && "is"@[1] == 's');
        },
        TokenKind::Pass => {
            reveal_strlit("pass");
            assert("pass"@.len() == 4 && "pass"@[0] == 'p' && "pass"@[1] == 'a' && "pass"@[2] == 's' && "pass"@[3] == 's');
        },
        TokenKind::Trait => {
            reveal_strlit("trait");
            assert("trait"@.len() == 5 && "trait"@[0] == 't' && "trait"@[1] == 'r' && "trait"@[2] == 'a' && "trait"@[3] == 'i' && "trait"@[4] == 't');
        },
        TokenKind::Int => {
            reveal_strlit("int");
            assert("int"@.len() == 3 && "int"@[0] == 'i' && "int"@[1] == 'n' && "int"@[2] == 't');
        },
        TokenKind::Float => {
            reveal_strlit("float");
            assert("float"@.len() == 5 && "float"@[0] == 'f' && "float"@[1] == 'l' && "float"@[2] == 'o' && "float"@[3] == 'a' && "float"@[4] == 't');
        },
        TokenKind::StringKw => {
            reveal_strlit("string");
            assert("string"@.len() == 6 && "string"@[0] == 's' && "string"@[1] == 't' && "string"@[2] == 'r' && "string"@[3] == 'i' && "string"@[4] == 'n' && "string"@[5] == 'g');
        },
        TokenKind::Str => {
            reveal_strlit("str");
            assert("str"@.len() == 3 && "str"@[0] == 's' && "str"@[1] == 't' && "str"@[2] == 'r');
        },
        TokenKind::Bytes => {
            reveal_strlit("bytes");
            assert("bytes"@.len() == 5 && "bytes"@[0] == 'b' && "bytes"@[1] == 'y' && "bytes"@[2] == 't' && "bytes"@[3] == 'e' && "bytes"@[4] == 's');
        },
        TokenKind::If => {
            reveal_strlit("if");
            assert("if"@.len() == 2 && "if"@[0] == 'i' && "if"@[1] == 'f');
        },
        TokenKind::Parameter => {
            reveal_strlit("parameter");
            assert("parameter"@.len() == 9 && "parameter"@[0] == 'p' && "parameter"@[1] == 'a' && "parameter"@[2] == 'r' && "parameter"@[3] == 'a' && "parameter"@[4] == 'm' && "parameter"@[5] == 'e' && "parameter"@[6] == 't' && "parameter"@[7] == 'e' && "parameter"@[8] == 'r');
        },
        TokenKind::Param => {
            reveal_strlit("param");
            assert("param"@.len() == 5 && "param"@[0] == 'p' && "param"@[1] == 'a' && "param"@[2] == 'r' && "param"@[3] == 'a' && "param"@[4] == 'm');
        },
        TokenKind::Test => {
            reveal_strlit("test");
            assert("test"@.len() == 4 && "test"@[0] == 't' && "test"@[1] == 'e' && "test"@[2] == 's' && "test"@[3] == 't');
        },
        TokenKind::Require => {
            reveal_strlit("require");
            assert("require"@.len() == 7 && "require"@[0] == 'r' && "require"@[1] == 'e' && "require"@[2] == 'q' && "require"@[3] == 'u' && "require"@[4] == 'i' && "require"@[5] == 'r' && "require"@[6] == 'e');
        },
        TokenKind::Requires => {
            reveal_strlit("requires");
            assert("requires"@.len() == 8 && "requires"@[0] == 'r' && "requires"@[1] == 'e' && "requires"@[2] == 'q' && "requires"@[3] == 'u' && "requires"@[4] == 'i' && "requires"@[5] == 'r' && "requires"@[6] == 'e' && "requires"@[7] == 's');
        },
        TokenKind::Check => {
            reveal_strlit("check");
            assert("check"@.len() == 5 && "check"@[0] == 'c' && "check"@[1] == 'h' && "check"@[2] == 'e' && "check"@[3] == 'c' && "check"@[4] == 'k');
        },
        TokenKind::Report => {
            reveal_strlit("report");
            assert("report"@.len() == 6 && "report"@[0] == 'r' && "report"@[1] == 'e' && "report"@[2] == 'p' && "report"@[3] == 'o' && "report"@[4] == 'r' && "report"@[5] == 't');
        },
        TokenKind::Ensure => {
            reveal_strlit("ensure");
            assert("ensure"@.len() == 6 && "ensure"@[0] == 'e' && "ensure"@[1] == 'n' && "ensure"@[2] == 's' && "ensure"@[3] == 'u' && "ensure"@[4] == 'r' && "ensure"@[5] == 'e');
        },
        _ => {},
    }
}

/// `keyword_kind` recognises the spelling of each keyword and reserved word as
/// that keyword.
#[verifier::spinoff_prover]
#[verifier::rlimit(100)]
proof fn lemma_keyword_kind_of_spelling(k: TokenKind)
    requires
        spec_is_keyword(k) || spec_is_reserved(k),
    ensures
        keyword_kind(spec_kind_name(k)) == Some(k),
{
    reveal_strlit("component");
    assert("component"@.len() == 9 && "component"@[0] == 'c' && "component"@[1] == 'o' && "component"@[2] == 'm' && "component"@[3] == 'p' && "component"@[4] == 'o' && "component"@[5] == 'n' && "component"@[6] == 'e' && "component"@[7] == 'n' && "component"@[8] == 't');
    reveal_strlit("module");
    assert("module"@.len() == 6 && "module"@[0] == 'm' && "module"@[1] == 'o' && "module"@[2] == 'd' && "module"@[3] == 'u' && "module"@[4] == 'l' && "module"@[5] == 'e');
    reveal_strlit("interface");
    assert("interface"@.len() == 9 && "interface"@[0] == 'i' && "interface"@[1] == 'n' && "interface"@[2] == 't' && "interface"@[3] == 'e' && "interface"@[4] == 'r' && "interface"@[5] == 'f' && "interface"@[6] == 'a' && "interface"@[7] == 'c' && "interface"@[8] == 'e');
    reveal_strlit("pin");
    assert("pin"@.len() == 3 && "pin"@[0] == 'p' && "pin"@[1] == 'i' && "pin"@[2] == 'n');
    reveal_strlit("signal");
    assert("signal"@.len() == 6 && "signal"@[0] == 's' && "signal"@[1] == 'i' && "signal"@[2] == 'g' && "signal"@[3] == 'n' && "signal"@[4] == 'a' && "signal"@[5] == 'l');
    reveal_strlit("new");
    assert("new"@.len() == 3 && "new"@[0] == 'n' && "new"@[1] == 'e' && "new"@[2] == 'w');
    reveal_strlit("from");
    assert("from"@.len() == 4 && "from"@[0] == 'f' && "from"@[1] == 'r' && "from"@[2] == 'o' && "from"@[3] == 'm');
    reveal_strlit("import");
    assert("import"@.len() == 6 && "import"@[0] == 'i' && "import"@[1] == 'm' && "import"@[2] == 'p' && "import"@[3] == 'o' && "import"@[4] == 'r' && "import"@[5] == 't');
    reveal_strlit("for");
    assert("for"@.len() == 3 && "for"@[0] == 'f' && "for"@[1] == 'o' && "for"@[2] == 'r');
    reveal_strlit("in");
    assert("in"@.len() == 2 && "in"@[0] == 'i' && "in"@[1] == 'n');
    reveal_strlit("assert");
    assert("assert"@.len() == 6 && "assert"@[0] == 'a' && "assert"@[1] == 's' && "assert"@[2] == 's' && "assert"@[3] == 'e' && "assert"@[4] == 'r' && "assert"@[5] == 't');
    reveal_strlit("to");
    assert("to"@.len() == 2 && "to"@[0] == 't' && "to"@[1] == 'o');
    reveal_strlit("True");
    assert("True"@.len() == 4 && "True"@[0] == 'T' && "True"@[1] == 'r' && "True"@[2] == 'u' && "True"@[3] == 'e');
    reveal_strlit("False");
    assert("False"@.len() == 5 && "False"@[0] == 'F' && "False"@[1] == 'a' && "False"@[2] == 'l' && "False"@[3] == 's' && "False"@[4] == 'e');
    reveal_strlit("within");
    assert("within"@.len() == 6 && "within"@[0] == 'w' && "within"@[1] == 'i' && "within"@[2] == 't' && "within"@[3] == 'h' && "within"@[4] == 'i' && "within"@[5] == 'n');
    reveal_strlit("is");
    assert("is"@.len() == 2 && "is"@[0] == 'i' && "is"@[1] == 's');
    reveal_strlit("pass");
    assert("pass"@.len() == 4 && "pass"@[0] == 'p' && "pass"@[1] == 'a' && "pass"@[2] == 's' && "pass"@[3] == 's');
    reveal_strlit("trait");
    assert("trait"@.len() == 5 && "trait"@[0] == 't' && "trait"@[1] == 'r' && "trait"@[2] == 'a' && "trait"@[3] == 'i' && "trait"@[4] == 't');
    reveal_strlit("int");
    assert("int"@.len() == 3 && "int"@[0] == 'i' && "int"@[1] == 'n' && "int"@[2] == 't');
    reveal_strlit("float");
    assert("float"@.len() == 5 && "float"@[0] == 'f' && "float"@[1] == 'l' && "float"@[2] == 'o' && "float"@[3] == 'a' && "float"@[4] == 't');
    reveal_strlit("string");
    assert("string"@.len() == 6 && "string"@[0] == 's' && "string"@[1] == 't' && "string"@[2] == 'r' && "string"@[3] == 'i' && "string"@[4] == 'n' && "string"@[5] == 'g');
    reveal_strlit("str");
    assert("str"@.len() == 3 && "str"@[0] == 's' && "str"@[1] == 't' && "str"@[2] == 'r');
    reveal_strlit("bytes");
    assert("bytes"@.len() == 5 && "bytes"@[0] == 'b' && "bytes"@[1] == 'y' && "bytes"@[2] == 't' && "bytes"@[3] == 'e' && "bytes"@[4] == 's');
    reveal_strlit("if");
    assert("if"@.len() == 2 && "if"@[0] == 'i' && "if"@[1] == 'f');
    reveal_strlit("parameter");
    assert("parameter"@.len() == 9 && "parameter"@[0] == 'p' && "parameter"@[1] == 'a' && "parameter"@[2] == 'r' && "parameter"@[3] == 'a' && "parameter"@[4] == 'm' && "parameter"@[5] == 'e' && "parameter"@[6] == 't' && "parameter"@[7] == 'e' && "parameter"@[8] == 'r');
    reveal_strlit("param");
    assert("param"@.len() == 5 && "param"@[0] == 'p' && "param"@[1] == 'a' && "param"@[2] == 'r' && "param"@[3] == 'a' && "param"@[4] == 'm');
    reveal_strlit("test");
    assert("test"@.len() == 4 && "test"@[0] == 't' && "test"@[1] == 'e' && "test"@[2] == 's' && "test"@[3] == 't');
    reveal_strlit("require");
    assert("require"@.len() == 7 && "require"@[0] == 'r' && "require"@[1] == 'e' && "require"@[2] == 'q' && "require"@[3] == 'u' && "require"@[4] == 'i' && "require"@[5] == 'r' && "require"@[6] == 'e');
    reveal_strlit("requires");
    assert("requires"@.len() == 8 && "requires"@[0] == 'r' && "requires"@[1] == 'e' && "requires"@[2] == 'q' && "requires"@[3] == 'u' && "requires"@[4] == 'i' && "requires"@[5] == 'r' && "requires"@[6] == 'e' && "requires"@[7] == 's');
    reveal_strlit("check");
    assert("check"@.len() == 5 && "check"@[0] == 'c' && "check"@[1] == 'h' && "check"@[2] == 'e' && "check"@[3] == 'c' && "check"@[4] == 'k');
    reveal_strlit("report");
    assert("report"@.len() == 6 && "report"@[0] == 'r' && "report"@[1] == 'e' && "report"@[2] == 'p' && "report"@[3] == 'o' && "report"@[4] == 'r' && "report"@[5] == 't');
    reveal_strlit("ensure");
    assert("ensure"@.len() == 6 && "ensure"@[0] == 'e' && "ensure"@[1] == 'n' && "ensure"@[2] == 's' && "ensure"@[3] == 'u' && "ensure"@[4] == 'r' && "ensure"@[5] == 'e');
}

/// A whole source made of identifier characters, starting with a letter, scans
/// as one word: the keyword it spells, or else a name.
proof fn lemma_scan_whole_word(w: Seq<char>)
    requires
        w.len() > 0,
        in_class(CharClass::Letter, w[0]),
        class_run(w, 0, CharClass::IdentChar) == w.len(),
    ensures
        scan(w, 0) == (match keyword_kind(w) {
            Some(k) => (k, w.len()),
            None => (TokenKind::Name, w.len()),
        }),
{
    assert(class_run(w, 0, CharClass::IdentChar) == 1 + class_run(w, 1, CharClass::IdentChar));
    if w.len() > 1 {
        assert(class_run(w, 1, CharClass::IdentChar) == w.len() - 1);
        assert(in_class(CharClass::IdentChar, w[1]));
        if w.len() > 2 {
            assert(class_run(w, 1, CharClass::IdentChar) == 1 + class_run(w, 2, CharClass::IdentChar));
            assert(class_run(w, 2, CharClass::IdentChar) == w.len() - 2);
            assert(in_class(CharClass::IdentChar, w[2]));
        }
    }
    assert(ident_len(w, 0) == w.len());
    assert(string_prefix(w, 0).is_none());
    assert(bytes_prefix(w, 0).is_none());
    assert(w.subrange(0, w.len() as int) =~= w);
}

/// Every keyword and reserved word, spelled alone, scans as that keyword over
/// its whole length, never as a name.
pub proof fn lemma_keyword_scans_as_keyword(k: TokenKind)
    requires
        spec_is_keyword(k) || spec_is_reserved(k),
    ensures
        spec_kind_name(k).len() > 0,
        scan(spec_kind_name(k), 0) == (k, spec_kind_name(k).len()),
{
    lemma_keyword_spelling(k);
    lemma_keyword_kind_of_spelling(k);
    lemma_scan_whole_word(spec_kind_name(k));
}

} // verus!
