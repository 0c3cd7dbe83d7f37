use vstd::prelude::*;
use vstd::string::{StrSliceExecFns, StringExecFns};
use crate::text::push_char;
use crate::token::{toks_of, Token, TokenType, TokenTypeV, TokenV};

verus! {

/// A recoverable lexical problem: the line it was seen on and a short
/// message. Scanning continues past it.
#[derive(Debug)]
pub struct Diagnostic {
    pub line: usize,
    pub message: String,
}

impl View for Diagnostic {
    type V = (nat, Seq<char>);

    open spec fn view(&self) -> (nat, Seq<char>) {
        (self.line as nat, self.message@)
    }
}

/// Whether the character is a decimal digit.
pub open spec fn is_digit_c(c: char) -> bool {
    '0' <= c && c <= '9'
}

/// Whether the character can start an identifier: an ASCII letter or an
/// underscore.
pub open spec fn is_alpha_c(c: char) -> bool {
    ('a' <= c && c <= 'z') || ('A' <= c && c <= 'Z') || c == '_'
}

/// Whether the character can continue an identifier.
pub open spec fn is_ident_c(c: char) -> bool {
    is_alpha_c(c) || is_digit_c(c)
}

/// The numeric value of a decimal digit character.
pub open spec fn digit_val(c: char) -> i64 {
    if c == '0' {
        0
    } else if c == '1' {
        1
    } else if c == '2' {
        2
    } else if c == '3' {
        3
    } else if c == '4' {
        4
    } else if c == '5' {
        5
    } else if c == '6' {
        6
    } else if c == '7' {
        7
    } else if c == '8' {
        8
    } else {
        9
    }
}

/// The 64-bit value of a run of digit characters, folded left with wrapping
/// arithmetic.
pub open spec fn digits_val(s: Seq<char>) -> i64
    decreases s.len(),
{
    if s.len() == 0 {
        0
    } else {
        vstd::wrapping::i64_specs::wrapping_add(
            vstd::wrapping::i64_specs::wrapping_mul(digits_val(s.drop_last()), 10),
            digit_val(s.last()),
        )
    }
}

/// The first position at or after `j` that does not continue a digit run.
pub open spec fn digits_end(cs: Seq<char>, j: int) -> int
    decreases cs.len() - j,
{
    if j < 0 || j >= cs.len() || !is_digit_c(cs[j]) {
        j
    } else {
        digits_end(cs, j + 1)
    }
}

/// The first position at or after `j` that does not continue an identifier.
pub open spec fn ident_end(cs: Seq<char>, j: int) -> int
    decreases cs.len() - j,
{
    if j < 0 || j >= cs.len() || !is_ident_c(cs[j]) {
        j
    } else {
        ident_end(cs, j + 1)
    }
}

/// The position of the line break that ends a line comment, or the end of
/// the input.
pub open spec fn line_end(cs: Seq<char>, j: int) -> int
    decreases cs.len() - j,
{
    if j < 0 || j >= cs.len() || cs[j] == '\n' {
        j
    } else {
        line_end(cs, j + 1)
    }
}

/// The position of the closing quote of a string literal, or the end of the
/// input when the string is unterminated.
pub open spec fn quote_end(cs: Seq<char>, j: int) -> int
    decreases cs.len() - j,
{
    if j < 0 || j >= cs.len() || cs[j] == '"' {
        j
    } else {
        quote_end(cs, j + 1)
    }
}

/// The position of the `*` of the two-character sequence that closes a block
/// comment, or the end of the input when the comment is unterminated.
pub open spec fn block_end(cs: Seq<char>, j: int) -> int
    decreases cs.len() - j,
{
    if j < 0 || j >= cs.len() {
        cs.len() as int
    } else if cs[j] == '*' && j + 1 < cs.len() && cs[j + 1] == '/' {
        j
    } else {
        block_end(cs, j + 1)
    }
}

/// How many line breaks lie in `cs[a..b]`.
pub open spec fn count_nl(cs: Seq<char>, a: int, b: int) -> nat
    decreases b - a,
{
    if a < 0 || a >= b || b > cs.len() {
        0
    } else {
        (if cs[a] == '\n' {
            1nat
        } else {
            0nat
        }) + count_nl(cs, a + 1, b)
    }
}

/// The keyword token for a reserved word, if the word is one.
pub open spec fn keyword_of(s: Seq<char>) -> Option<TokenTypeV> {
    if s == "and"@ {
        Some(TokenTypeV::AND)
    } else if s == "class"@ {
        Some(TokenTypeV::CLASS)
    } else if s == "else"@ {
        Some(TokenTypeV::ELSE)
    } else if s == "false"@ {
        Some(TokenTypeV::FALSE)
    } else if s == "fun"@ {
        Some(TokenTypeV::FUN)
    } else if s == "for"@ {
        Some(TokenTypeV::FOR)
    } else if s == "if"@ {
        Some(TokenTypeV::IF)
    } else if s == "nil"@ {
        Some(TokenTypeV::NIL)
    } else if s == "or"@ {
        Some(TokenTypeV::OR)
    } else if s == "print"@ {
        Some(TokenTypeV::PRINT)
    } else if s == "return"@ {
        Some(TokenTypeV::RETURN)
    } else if s == "super"@ {
        Some(TokenTypeV::SUPER)
    } else if s == "this"@ {
        Some(TokenTypeV::THIS)
    } else if s == "true"@ {
        Some(TokenTypeV::TRUE)
    } else if s == "var"@ {
        Some(TokenTypeV::VAR)
    } else if s == "while"@ {
        Some(TokenTypeV::WHILE)
    } else {
        None
    }
}

/// A token model without payload, from its category, lexeme and line.
pub open spec fn tv(tt: TokenTypeV, lex: Seq<char>, line: nat) -> TokenV {
    TokenV { token_type: tt, lexeme: lex, line }
}

/// What one step of the scanner does at position `i` on line `line`: the
/// position it continues at, the line it continues on, and the tokens and
/// diagnostics it emits (at most one of each).
///
/// The token boundaries follow the grammar: one- and two-character
/// operators, `//` line comments to the line break, `/* */` block comments
/// in a single pass, strings to the closing quote (an unterminated string is
/// a diagnostic), digit runs with an optional fraction (a bare trailing dot
/// is not consumed; since numbers are integers the fraction digits do not
/// contribute to the value), ASCII identifiers checked against the reserved
/// words, and a diagnostic for any other character.
pub open spec fn scan_step(cs: Seq<char>, i: int, line: nat) -> (
    int,
    nat,
    Seq<TokenV>,
    Seq<(nat, Seq<char>)>,
)
    recommends
        0 <= i < cs.len(),
{
    let c = cs[i];
    if c == '(' {
        (i + 1, line, seq![tv(TokenTypeV::LEFTPAREN, seq![c], line)], Seq::empty())
    } else if c == ')' {
        (i + 1, line, seq![tv(TokenTypeV::RIGHTPAREN, seq![c], line)], Seq::empty())
    } else if c == '{' {
        (i + 1, line, seq![tv(TokenTypeV::LEFTBRACE, seq![c], line)], Seq::empty())
    } else if c == '}' {
        (i + 1, line, seq![tv(TokenTypeV::RIGHTBRACE, seq![c], line)], Seq::empty())
    } else if c == ',' {
        (i + 1, line, seq![tv(TokenTypeV::COMMA, seq![c], line)], Seq::empty())
    } else if c == '.' {
        (i + 1, line, seq![tv(TokenTypeV::DOT, seq![c], line)], Seq::empty())
    } else if c == '-' {
        (i + 1, line, seq![tv(TokenTypeV::MINUS, seq![c], line)], Seq::empty())
    } else if c == '+' {
        (i + 1, line, seq![tv(TokenTypeV::PLUS, seq![c], line)], Seq::empty())
    } else if c == ';' {
        (i + 1, line, seq![tv(TokenTypeV::SEMICOLON, seq![c], line)], Seq::empty())
    } else if c == '*' {
        (i + 1, line, seq![tv(TokenTypeV::STAR, seq![c], line)], Seq::empty())
    } else if c == '!' {
        if i + 1 < cs.len() && cs[i + 1] == '=' {
            (i + 2, line, seq![tv(TokenTypeV::BANGEQUAL, seq!['!', '='], line)], Seq::empty())
        } else {
            (i + 1, line, seq![tv(TokenTypeV::BANG, seq![c], line)], Seq::empty())
        }
    } else if c == '=' {
        if i + 1 < cs.len() && cs[i + 1] == '=' {
            (i + 2, line, seq![tv(TokenTypeV::EQUALEQUAL, seq!['=', '='], line)], Seq::empty())
        } else {
            (i + 1, line, seq![tv(TokenTypeV::EQUAL, seq![c], line)], Seq::empty())
        }
    } else if c == '<' {
        if i + 1 < cs.len() && cs[i + 1] == '=' {
            (i + 2, line, seq![tv(TokenTypeV::LESSEQUAL, seq!['<', '='], line)], Seq::empty())
        } else {
            (i + 1, line, seq![tv(TokenTypeV::LESS, seq![c], line)], Seq::empty())
        }
    } else if c == '>' {
        if i + 1 < cs.len() && cs[i + 1] == '=' {
            (i + 2, line, seq![tv(TokenTypeV::GREATEREQUAL, seq!['>', '='], line)], Seq::empty())
        } else {
            (i + 1, line, seq![tv(TokenTypeV::GREATER, seq![c], line)], Seq::empty())
        }
    } else if c == '/' {
        if i + 1 < cs.len() && cs[i + 1] == '/' {
            (line_end(cs, i + 2), line, Seq::empty(), Seq::empty())
        } else if i + 1 < cs.len() && cs[i + 1] == '*' {
            let e = block_end(cs, i + 2);
            if e < cs.len() {
                (e + 2, line + count_nl(cs, i + 2, e), Seq::empty(), Seq::empty())
            } else {
                (
                    cs.len() as int,
                    line + count_nl(cs, i + 2, cs.len() as int),
                    Seq::empty(),
                    seq![
                        (
                            (line + count_nl(cs, i + 2, cs.len() as int)) as nat,
                            "Unterminated block comment"@,
                        ),
                    ],
                )
            }
        } else {
            (i + 1, line, seq![tv(TokenTypeV::SLASH, seq![c], line)], Seq::empty())
        }
    } else if c == ' ' || c == '\t' || c == '\r' {
        (i + 1, line, Seq::empty(), Seq::empty())
    } else if c == '\n' {
        (i + 1, line + 1, Seq::empty(), Seq::empty())
    } else if c == '"' {
        let q = quote_end(cs, i + 1);
        let l2 = line + count_nl(cs, i + 1, q);
        if q < cs.len() {
            let content = cs.subrange(i + 1, q);
            (q + 1, l2, seq![tv(TokenTypeV::STRING(content), content, l2)], Seq::empty())
        } else {
            (cs.len() as int, l2, Seq::empty(), seq![(l2, "Unterminated string"@)])
        }
    } else if is_digit_c(c) {
        let d1 = digits_end(cs, i + 1);
        let value = digits_val(cs.subrange(i, d1));
        if d1 + 1 < cs.len() && cs[d1] == '.' && is_digit_c(cs[d1 + 1]) {
            let d2 = digits_end(cs, d1 + 2);
            (
                d2,
                line,
                seq![tv(TokenTypeV::NUMBER(value), cs.subrange(i, d2), line)],
                Seq::empty(),
            )
        } else {
            (
                d1,
                line,
                seq![tv(TokenTypeV::NUMBER(value), cs.subrange(i, d1), line)],
                Seq::empty(),
            )
        }
    } else if is_alpha_c(c) {
        let e = ident_end(cs, i + 1);
        let word = cs.subrange(i, e);
        match keyword_of(word) {
            Some(tt) => (e, line, seq![tv(tt, word, line)], Seq::empty()),
            None => (e, line, seq![tv(TokenTypeV::IDENTIFIER(word), word, line)], Seq::empty()),
        }
    } else {
        (i + 1, line, Seq::empty(), seq![(line, "Unexpected character"@)])
    }
}

/// The full scan of the input from position `i` on line `line`: the token
/// sequence, always terminated by a single end marker, and the diagnostics,
/// in order.
#[verifier::opaque]
pub open spec fn scan_spec(cs: Seq<char>, i: int, line: nat) -> (
    Seq<TokenV>,
    Seq<(nat, Seq<char>)>,
)
    decreases cs.len() - i,
{
    if i < 0 || i >= cs.len() {
        (seq![tv(TokenTypeV::EOF, Seq::empty(), line)], Seq::empty())
    } else {
        let (j, l2, toks, dgs) = scan_step(cs, i, line);
        if i < j <= cs.len() {
            let (rt, rd) = scan_spec(cs, j, l2);
            (toks + rt, dgs + rd)
        } else {
            (seq![tv(TokenTypeV::EOF, Seq::empty(), line)], Seq::empty())
        }
    }
}

/// The models of a diagnostic list, in order.
pub open spec fn diags_view(ds: Seq<Diagnostic>) -> Seq<(nat, Seq<char>)> {
    Seq::new(ds.len(), |i: int| ds[i]@)
}

fn is_digit_exec(c: char) -> (r: bool)
    ensures
        r == is_digit_c(c),
{
    '0' <= c && c <= '9'
}

fn is_alpha_exec(c: char) -> (r: bool)
    ensures
        r == is_alpha_c(c),
{
    ('a' <= c && c <= 'z') || ('A' <= c && c <= 'Z') || c == '_'
}

fn is_ident_exec(c: char) -> (r: bool)
    ensures
        r == is_ident_c(c),
{
    is_alpha_exec(c) || is_digit_exec(c)
}

fn digit_val_exec(c: char) -> (r: i64)
    ensures
        r == digit_val(c),
{
    if c == '0' {
        0
    } else if c == '1' {
        1
    } else if c == '2' {
        2
    } else if c == '3' {
        3
    } else if c == '4' {
        4
    } else if c == '5' {
        5
    } else if c == '6' {
        6
    } else if c == '7' {
        7
    } else if c == '8' {
        8
    } else {
        9
    }
}

fn digits_end_exec(src: &Vec<char>, from: usize) -> (r: usize)
    requires
        from <= src@.len(),
    ensures
        r as int == digits_end(src@, from as int),
        from <= r <= src@.len(),
    decreases src@.len() - from,
{
    if from < src.len() && is_digit_exec(src[from]) {
        digits_end_exec(src, from + 1)
    } else {
        from
    }
}

fn ident_end_exec(src: &Vec<char>, from: usize) -> (r: usize)
    requires
        from <= src@.len(),
    ensures
        r as int == ident_end(src@, from as int),
        from <= r <= src@.len(),
    decreases src@.len() - from,
{
    if from < src.len() && is_ident_exec(src[from]) {
        ident_end_exec(src, from + 1)
    } else {
        from
    }
}

fn line_end_exec(src: &Vec<char>, from: usize) -> (r: usize)
    requires
        from <= src@.len(),
    ensures
        r as int == line_end(src@, from as int),
        from <= r <= src@.len(),
    decreases src@.len() - from,
{
    if from < src.len() && src[from] != '\n' {
        line_end_exec(src, from + 1)
    } else {
        from
    }
}

fn quote_end_exec(src: &Vec<char>, from: usize) -> (r: usize)
    requires
        from <= src@.len(),
    ensures
        r as int == quote_end(src@, from as int),
        from <= r <= src@.len(),
    decreases src@.len() - from,
{
    if from < src.len() && src[from] != '"' {
        quote_end_exec(src, from + 1)
    } else {
        from
    }
}

fn block_end_exec(src: &Vec<char>, from: usize) -> (r: usize)
    requires
        from <= src@.len(),
    ensures
        r as int == block_end(src@, from as int),
        from <= r <= src@.len(),
        r < src@.len() ==> r + 1 < src@.len(),
    decreases src@.len() - from,
{
    if from >= src.len() {
        src.len()
    } else if src[from] == '*' && from + 1 < src.len() && src[from + 1] == '/' {
        from
    } else {
        block_end_exec(src, from + 1)
    }
}

/// The characters of the source between two positions, as a fresh string.
fn substring_of(src: &Vec<char>, from: usize, to: usize) -> (s: String)
    requires
        from <= to <= src@.len(),
    ensures
        s@ == src@.subrange(from as int, to as int),
{
    let mut s = String::new();
    let mut k = from;
    proof {
        assert(s@ =~= src@.subrange(from as int, from as int));
    }
    while k < to
        invariant
            from <= k <= to <= src@.len(),
            s@ == src@.subrange(from as int, k as int),
        decreases to - k,
    {
        push_char(&mut s, src[k]);
        proof {
            assert(src@.subrange(from as int, k as int).push(src@[k as int]) =~= src@.subrange(
                from as int,
                k + 1,
            ));
        }
        k = k + 1;
    }
    s
}

/// The wrapping 64-bit value of the digit run between two positions.
fn digits_value_exec(src: &Vec<char>, from: usize, to: usize) -> (r: i64)
    requires
        from <= to <= src@.len(),
    ensures
        r == digits_val(src@.subrange(from as int, to as int)),
{
    let mut val: i64 = 0;
    let mut k = from;
    proof {
        assert(src@.subrange(from as int, from as int).len() == 0);
    }
    while k < to
        invariant
            from <= k <= to <= src@.len(),
            val == digits_val(src@.subrange(from as int, k as int)),
        decreases to - k,
    {
        let d = digit_val_exec(src[k]);
        val = val.wrapping_mul(10).wrapping_add(d);
        proof {
            let sub = src@.subrange(from as int, k + 1);
            assert(sub.drop_last() =~= src@.subrange(from as int, k as int));
            assert(sub.last() == src@[k as int]);
        }
        k = k + 1;
    }
    val
}

/// Splitting a newline count at an interior position.
proof fn lemma_count_nl_split(cs: Seq<char>, a: int, m: int, b: int)
    requires
        0 <= a <= m <= b <= cs.len(),
    ensures
        count_nl(cs, a, b) == count_nl(cs, a, m) + count_nl(cs, m, b),
    decreases m - a,
{
    if a < m {
        lemma_count_nl_split(cs, a + 1, m, b);
    }
}

/// The lexical scanner: a single left-to-right pass over the source
/// characters with one-character lookahead, collecting tokens and
/// recoverable diagnostics.
#[derive(Debug)]
pub struct Scanner {
    pub source: Vec<char>,
    pub current: usize,
    pub line: usize,
    pub tokens: Vec<Token>,
    pub diagnostics: Vec<Diagnostic>,
}

impl Scanner {
    /// The cursor stays within the source and the line counter never passes
    /// it: a line break is counted only once its character is consumed.
    pub open spec fn wf(&self) -> bool {
        self.current <= self.source@.len() && self.line <= self.current
    }

    /// A fresh scanner over the characters of the source text.
    pub fn new(src: &str) -> (sc: Scanner)
        ensures
            sc.wf(),
            sc.source@ == src@,
            sc.current == 0,
            sc.line == 0,
            sc.tokens@.len() == 0,
            sc.diagnostics@.len() == 0,
    {
        let n = src.unicode_len();
        let mut source: Vec<char> = Vec::new();
        let mut k: usize = 0;
        proof {
            assert(source@ =~= src@.subrange(0, 0));
        }
        while k < n
            invariant
                k <= n,
                n == src@.len(),
                source@ == src@.subrange(0, k as int),
            decreases n - k,
        {
            source.push(src.get_char(k));
            proof {
                assert(src@.subrange(0, k as int).push(src@[k as int]) =~= src@.subrange(0, k + 1));
            }
            k = k + 1;
        }
        proof {
            assert(src@.subrange(0, src@.len() as int) =~= src@);
        }
        Scanner { source, current: 0, line: 0, tokens: Vec::new(), diagnostics: Vec::new() }
    }

    fn push_simple(&mut self, tt: TokenType, c: char)
        requires
            old(self).wf(),
            old(self).current < old(self).source@.len(),
        ensures
            final(self).wf(),
            final(self).source == old(self).source,
            final(self).line == old(self).line,
            final(self).diagnostics == old(self).diagnostics,
            final(self).current == old(self).current + 1,
            toks_of(final(self).tokens@) == toks_of(old(self).tokens@).push(
                tv(tt@, seq![c], old(self).line as nat),
            ),
    {
        let mut lexeme = String::new();
        push_char(&mut lexeme, c);
        proof {
            assert(lexeme@ =~= seq![c]);
        }
        let t = Token::new(tt, lexeme, self.line);
        self.tokens.push(t);
        let n = self.source.len();
        proof {
            assert(self.current < n);
        }
        self.current = self.current + 1;
        proof {
            assert(toks_of(final(self).tokens@) =~= toks_of(old(self).tokens@).push(
                tv(tt@, seq![c], old(self).line as nat),
            ));
        }
    }

    fn push_double(&mut self, tt: TokenType, c1: char, c2: char)
        requires
            old(self).wf(),
            old(self).current + 1 < old(self).source@.len(),
        ensures
            final(self).wf(),
            final(self).source == old(self).source,
            final(self).line == old(self).line,
            final(self).diagnostics == old(self).diagnostics,
            final(self).current == old(self).current + 2,
            toks_of(final(self).tokens@) == toks_of(old(self).tokens@).push(
                tv(tt@, seq![c1, c2], old(self).line as nat),
            ),
    {
        let mut lexeme = String::new();
        push_char(&mut lexeme, c1);
        push_char(&mut lexeme, c2);
        proof {
            assert(lexeme@ =~= seq![c1, c2]);
        }
        let t = Token::new(tt, lexeme, self.line);
        self.tokens.push(t);
        let n = self.source.len();
        proof {
            assert(self.current + 1 < n);
        }
        self.current = self.current + 2;
        proof {
            assert(toks_of(final(self).tokens@) =~= toks_of(old(self).tokens@).push(
                tv(tt@, seq![c1, c2], old(self).line as nat),
            ));
        }
    }

    /// The keyword token for a reserved word, or nothing for an ordinary
    /// identifier.
    fn keyword(&self, identifier: &String) -> (r: Option<TokenType>)
        ensures
            match r {
                Some(tt) => keyword_of(identifier@) == Some(tt@),
                None => keyword_of(identifier@) is None,
            },
    {
        if crate::text::str_eq_lit(identifier, "and") {
            Some(TokenType::AND)
        } else if crate::text::str_eq_lit(identifier, "class") {
            Some(TokenType::CLASS)
        } else if crate::text::str_eq_lit(identifier, "else") {
            Some(TokenType::ELSE)
        } else if crate::text::str_eq_lit(identifier, "false") {
            Some(TokenType::FALSE)
        } else if crate::text::str_eq_lit(identifier, "fun") {
            Some(TokenType::FUN)
        } else if crate::text::str_eq_lit(identifier, "for") {
            Some(TokenType::FOR)
        } else if crate::text::str_eq_lit(identifier, "if") {
            Some(TokenType::IF)
        } else if crate::text::str_eq_lit(identifier, "nil") {
            Some(TokenType::NIL)
        } else if crate::text::str_eq_lit(identifier, "or") {
            Some(TokenType::OR)
        } else if crate::text::str_eq_lit(identifier, "print") {
            Some(TokenType::PRINT)
        } else if crate::text::str_eq_lit(identifier, "return") {
            Some(TokenType::RETURN)
        } else if crate::text::str_eq_lit(identifier, "super") {
            Some(TokenType::SUPER)
        } else if crate::text::str_eq_lit(identifier, "this") {
            Some(TokenType::THIS)
        } else if crate::text::str_eq_lit(identifier, "true") {
            Some(TokenType::TRUE)
        } else if crate::text::str_eq_lit(identifier, "var") {
            Some(TokenType::VAR)
        } else if crate::text::str_eq_lit(identifier, "while") {
            Some(TokenType::WHILE)
        } else {
            None
        }
    }

    /// Consumes one lexeme (or one piece of discarded text) starting at the
    /// cursor, exactly as `scan_step` describes.
    #[verifier::rlimit(100)]
    #[verifier::spinoff_prover]
    fn scan_token(&mut self)
        requires
            old(self).wf(),
            old(self).current < old(self).source@.len(),
        ensures
            final(self).wf(),
            final(self).source == old(self).source,
            old(self).current < final(self).current,
            ({
                let (j, l2, toks, dgs) = scan_step(
                    old(self).source@,
                    old(self).current as int,
                    old(self).line as nat,
                );
                &&& final(self).current as int == j
                &&& final(self).line as nat == l2
                &&& toks_of(final(self).tokens@) == toks_of(old(self).tokens@) + toks
                &&& diags_view(final(self).diagnostics@) == diags_view(old(self).diagnostics@)
                    + dgs
            }),
    {
        let ghost cs = self.source@;
        let ghost i = self.current as int;
        let ghost line0 = self.line as nat;
        let ghost toks0 = toks_of(self.tokens@);
        let ghost dgs0 = diags_view(self.diagnostics@);
        let n = self.source.len();
        let c = self.source[self.current];
        proof {
            assert(toks0 + Seq::<TokenV>::empty() =~= toks0);
            assert(dgs0 + Seq::<(nat, Seq<char>)>::empty() =~= dgs0);
        }
        match c {
            '(' => {
                self.push_simple(TokenType::LEFTPAREN, c);
                proof {
                    assert(toks_of(final(self).tokens@) =~= toks0 + seq![
                        tv(TokenTypeV::LEFTPAREN, seq![c], line0),
                    ]);
                }
            },
            ')' => {
                self.push_simple(TokenType::RIGHTPAREN, c);
                proof {
                    assert(toks_of(final(self).tokens@) =~= toks0 + seq![
                        tv(TokenTypeV::RIGHTPAREN, seq![c], line0),
                    ]);
                }
            },
            '{' => {
                self.push_simple(TokenType::LEFTBRACE, c);
                proof {
                    assert(toks_of(final(self).tokens@) =~= toks0 + seq![
                        tv(TokenTypeV::LEFTBRACE, seq![c], line0),
                    ]);
                }
            },
            '}' => {
                self.push_simple(TokenType::RIGHTBRACE, c);
                proof {
                    assert(toks_of(final(self).tokens@) =~= toks0 + seq![
                        tv(TokenTypeV::RIGHTBRACE, seq![c], line0),
                    ]);
                }
            },
            ',' => {
                self.push_simple(TokenType::COMMA, c);
                proof {
                    assert(toks_of(final(self).tokens@) =~= toks0 + seq![
                        tv(TokenTypeV::COMMA, seq![c], line0),
                    ]);
                }
            },
            '.' => {
                self.push_simple(TokenType::DOT, c);
                proof {
                    assert(toks_of(final(self).tokens@) =~= toks0 + seq![
                        tv(TokenTypeV::DOT, seq![c], line0),
                    ]);
                }
            },
            '-' => {
                self.push_simple(TokenType::MINUS, c);
                proof {
                    assert(toks_of(final(self).tokens@) =~= toks0 + seq![
                        tv(TokenTypeV::MINUS, seq![c], line0),
                    ]);
                }
            },
            '+' => {
                self.push_simple(TokenType::PLUS, c);
                proof {
                    assert(toks_of(final(self).tokens@) =~= toks0 + seq![
                        tv(TokenTypeV::PLUS, seq![c], line0),
                    ]);
                }
            },
            ';' => {
                self.push_simple(TokenType::SEMICOLON, c);
                proof {
                    assert(toks_of(final(self).tokens@) =~= toks0 + seq![
                        tv(TokenTypeV::SEMICOLON, seq![c], line0),
                    ]);
                }
            },
            '*' => {
                self.push_simple(TokenType::STAR, c);
                proof {
                    assert(toks_of(final(self).tokens@) =~= toks0 + seq![
                        tv(TokenTypeV::STAR, seq![c], line0),
                    ]);
                }
            },
            '!' => {
                if self.current + 1 < n && self.source[self.current + 1] == '=' {
                    self.push_double(TokenType::BANGEQUAL, c, '=');
                    proof {
                        assert(toks_of(final(self).tokens@) =~= toks0 + seq![
                            tv(TokenTypeV::BANGEQUAL, seq!['!', '='], line0),
                        ]);
                    }
                } else {
                    self.push_simple(TokenType::BANG, c);
                    proof {
                        assert(toks_of(final(self).tokens@) =~= toks0 + seq![
                            tv(TokenTypeV::BANG, seq![c], line0),
                        ]);
                    }
                }
            },
            '=' => {
                if self.current + 1 < n && self.source[self.current + 1] == '=' {
                    self.push_double(TokenType::EQUALEQUAL, c, '=');
                    proof {
                        assert(toks_of(final(self).tokens@) =~= toks0 + seq![
                            tv(TokenTypeV::EQUALEQUAL, seq!['=', '='], line0),
                        ]);
                    }
                } else {
                    self.push_simple(TokenType::EQUAL, c);
                    proof {
                        assert(toks_of(final(self).tokens@) =~= toks0 + seq![
                            tv(TokenTypeV::EQUAL, seq![c], line0),
                        ]);
                    }
                }
            },
            '<' => {
                if self.current + 1 < n && self.source[self.current + 1] == '=' {
                    self.push_double(TokenType::LESSEQUAL, c, '=');
                    proof {
                        assert(toks_of(final(self).tokens@) =~= toks0 + seq![
                            tv(TokenTypeV::LESSEQUAL, seq!['<', '='], line0),
                        ]);
                    }
                } else {
                    self.push_simple(TokenType::LESS, c);
                    proof {
                        assert(toks_of(final(self).tokens@) =~= toks0 + seq![
                            tv(TokenTypeV::LESS, seq![c], line0),
                        ]);
                    }
                }
            },
            '>' => {
                if self.current + 1 < n && self.source[self.current + 1] == '=' {
                    self.push_double(TokenType::GREATEREQUAL, c, '=');
                    proof {
                        assert(toks_of(final(self).tokens@) =~= toks0 + seq![
                            tv(TokenTypeV::GREATEREQUAL, seq!['>', '='], line0),
                        ]);
                    }
                } else {
                    self.push_simple(TokenType::GREATER, c);
                    proof {
                        assert(toks_of(final(self).tokens@) =~= toks0 + seq![
                            tv(TokenTypeV::GREATER, seq![c], line0),
                        ]);
                    }
                }
            },
            '/' => {
                if self.current + 1 < n && self.source[self.current + 1] == '/' {
                    self.current = line_end_exec(&self.source, self.current + 2);
                } else if self.current + 1 < n && self.source[self.current + 1] == '*' {
                    self.skip_block_comment();
                } else {
                    self.push_simple(TokenType::SLASH, c);
                    proof {
                        assert(toks_of(final(self).tokens@) =~= toks0 + seq![
                            tv(TokenTypeV::SLASH, seq![c], line0),
                        ]);
                    }
                }
            },
            ' ' => {
                self.current = self.current + 1;
            },
            '\t' => {
                self.current = self.current + 1;
            },
            '\r' => {
                self.current = self.current + 1;
            },
            '\n' => {
                self.line = self.line + 1;
                self.current = self.current + 1;
            },
            '"' => {
                self.handle_strings();
            },
            _ => {
                if is_digit_exec(c) {
                    self.handle_numbers();
                } else if is_alpha_exec(c) {
                    self.handle_identifier();
                } else {
                    self.diagnostics.push(
                        Diagnostic {
                            line: self.line,
                            message: String::from_str("Unexpected character"),
                        },
                    );
                    self.current = self.current + 1;
                    proof {
                        assert(diags_view(final(self).diagnostics@) =~= dgs0 + seq![
                            (line0, "Unexpected character"@),
                        ]);
                    }
                }
            },
        }
    }

    /// Skips a block comment in a single pass, watching for the closing
    /// two-character sequence and counting the line breaks inside it; a
    /// comment still open at the end of the input is a diagnostic.
    #[verifier::rlimit(100)]
    #[verifier::spinoff_prover]
    fn skip_block_comment(&mut self)
        requires
            old(self).wf(),
            old(self).current + 1 < old(self).source@.len(),
            old(self).source@[old(self).current as int] == '/',
            old(self).source@[old(self).current as int + 1] == '*',
        ensures
            final(self).wf(),
            final(self).source == old(self).source,
            final(self).tokens == old(self).tokens,
            old(self).current < final(self).current,
            ({
                let cs = old(self).source@;
                let i = old(self).current as int;
                let line0 = old(self).line as nat;
                let e = block_end(cs, i + 2);
                if e < cs.len() {
                    &&& final(self).current as int == e + 2
                    &&& final(self).line as nat == line0 + count_nl(cs, i + 2, e)
                    &&& final(self).diagnostics == old(self).diagnostics
                } else {
                    &&& final(self).current as int == cs.len()
                    &&& final(self).line as nat == line0 + count_nl(cs, i + 2, cs.len() as int)
                    &&& diags_view(final(self).diagnostics@) == diags_view(
                        old(self).diagnostics@,
                    ).push(
                        (
                            (line0 + count_nl(cs, i + 2, cs.len() as int)) as nat,
                            "Unterminated block comment"@,
                        ),
                    )
                }
            }),
    {
        let ghost cs = self.source@;
        let ghost line0 = self.line as nat;
        let n = self.source.len();
        let from = self.current + 2;
        let e = block_end_exec(&self.source, from);
        let mut k = from;
        while k < e
            invariant
                from <= k <= e <= n,
                n == cs.len(),
                cs == self.source@,
                self.source == old(self).source,
                self.tokens == old(self).tokens,
                self.diagnostics == old(self).diagnostics,
                self.current == old(self).current,
                self.line <= k,
                self.line as nat == line0 + count_nl(cs, from as int, k as int),
            decreases e - k,
        {
            if self.source[k] == '\n' {
                self.line = self.line + 1;
            }
            proof {
                assert(count_nl(cs, k + 1, k + 1) == 0);
                assert(count_nl(cs, k as int, k + 1) == (if cs[k as int] == '\n' {
                    1nat
                } else {
                    0nat
                }));
                lemma_count_nl_split(cs, from as int, k as int, k + 1);
            }
            k = k + 1;
        }
        if e < n {
            self.current = e + 2;
        } else {
            let l = self.line;
            self.diagnostics.push(
                Diagnostic { line: l, message: String::from_str("Unterminated block comment") },
            );
            self.current = n;
            proof {
                assert(diags_view(final(self).diagnostics@) =~= diags_view(
                    old(self).diagnostics@,
                ).push(((line0 + count_nl(cs, from as int, n as int)) as nat, "Unterminated block comment"@)));
            }
        }
    }

    /// Consumes a string literal: the characters to the closing quote become
    /// the token, with line breaks inside the literal counted; a string
    /// still open at the end of the input is a diagnostic and no token.
    #[verifier::rlimit(100)]
    #[verifier::spinoff_prover]
    fn handle_strings(&mut self)
        requires
            old(self).wf(),
            old(self).current < old(self).source@.len(),
            old(self).source@[old(self).current as int] == '"',
        ensures
            final(self).wf(),
            final(self).source == old(self).source,
            old(self).current < final(self).current,
            ({
                let cs = old(self).source@;
                let i = old(self).current as int;
                let line0 = old(self).line as nat;
                let q = quote_end(cs, i + 1);
                let l2 = line0 + count_nl(cs, i + 1, q);
                if q < cs.len() {
                    &&& final(self).current as int == q + 1
                    &&& final(self).line as nat == l2
                    &&& toks_of(final(self).tokens@) == toks_of(old(self).tokens@).push(
                        tv(TokenTypeV::STRING(cs.subrange(i + 1, q)), cs.subrange(i + 1, q), l2),
                    )
                    &&& final(self).diagnostics == old(self).diagnostics
                } else {
                    &&& final(self).current as int == cs.len()
                    &&& final(self).line as nat == l2
                    &&& final(self).tokens == old(self).tokens
                    &&& diags_view(final(self).diagnostics@) == diags_view(
                        old(self).diagnostics@,
                    ).push((l2, "Unterminated string"@))
                }
            }),
    {
        let ghost cs = self.source@;
        let ghost line0 = self.line as nat;
        let n = self.source.len();
        let from = self.current + 1;
        let q = quote_end_exec(&self.source, from);
        let mut k = from;
        while k < q
            invariant
                from <= k <= q <= n,
                n == cs.len(),
                cs == self.source@,
                self.source == old(self).source,
                self.tokens == old(self).tokens,
                self.diagnostics == old(self).diagnostics,
                self.current == old(self).current,
                self.line <= k,
                self.line as nat == line0 + count_nl(cs, from as int, k as int),
            decreases q - k,
        {
            if self.source[k] == '\n' {
                self.line = self.line + 1;
            }
            proof {
                assert(count_nl(cs, k + 1, k + 1) == 0);
                assert(count_nl(cs, k as int, k + 1) == (if cs[k as int] == '\n' {
                    1nat
                } else {
                    0nat
                }));
                lemma_count_nl_split(cs, from as int, k as int, k + 1);
            }
            k = k + 1;
        }
        if q < n {
            let content = substring_of(&self.source, from, q);
            let lexeme = content.clone();
            let t = Token::new(TokenType::STRING(content), lexeme, self.line);
            self.tokens.push(t);
            self.current = q + 1;
            proof {
                assert(toks_of(final(self).tokens@) =~= toks_of(old(self).tokens@).push(
                    tv(
                        TokenTypeV::STRING(cs.subrange(from as int, q as int)),
                        cs.subrange(from as int, q as int),
                        self.line as nat,
                    ),
                ));
            }
        } else {
            let l = self.line;
            self.diagnostics.push(
                Diagnostic { line: l, message: String::from_str("Unterminated string") },
            );
            self.current = n;
            proof {
                assert(diags_view(final(self).diagnostics@) =~= diags_view(
                    old(self).diagnostics@,
                ).push((self.line as nat, "Unterminated string"@)));
            }
        }
    }

    /// Consumes a numeric literal: a digit run with an optional fraction.
    /// The token's value is the integer value of the digits before the dot.
    #[verifier::rlimit(100)]
    #[verifier::spinoff_prover]
    fn handle_numbers(&mut self)
        requires
            old(self).wf(),
            old(self).current < old(self).source@.len(),
            is_digit_c(old(self).source@[old(self).current as int]),
        ensures
            final(self).wf(),
            final(self).source == old(self).source,
            final(self).line == old(self).line,
            final(self).diagnostics == old(self).diagnostics,
            old(self).current < final(self).current,
            ({
                let cs = old(self).source@;
                let i = old(self).current as int;
                let line0 = old(self).line as nat;
                let d1 = digits_end(cs, i + 1);
                let value = digits_val(cs.subrange(i, d1));
                let frac = d1 + 1 < cs.len() && cs[d1] == '.' && is_digit_c(cs[d1 + 1]);
                let end = if frac {
                    digits_end(cs, d1 + 2)
                } else {
                    d1
                };
                &&& final(self).current as int == end
                &&& toks_of(final(self).tokens@) == toks_of(old(self).tokens@).push(
                    tv(TokenTypeV::NUMBER(value), cs.subrange(i, end), line0),
                )
            }),
    {
        let ghost cs = self.source@;
        let n = self.source.len();
        let d1 = digits_end_exec(&self.source, self.current + 1);
        let value = digits_value_exec(&self.source, self.current, d1);
        let frac = d1 < n && self.source[d1] == '.' && d1 + 1 < n && is_digit_exec(
            self.source[d1 + 1],
        );
        let end = if frac {
            digits_end_exec(&self.source, d1 + 2)
        } else {
            d1
        };
        let lexeme = substring_of(&self.source, self.current, end);
        let t = Token::new(TokenType::NUMBER(value), lexeme, self.line);
        self.tokens.push(t);
        self.current = end;
        proof {
            let i = old(self).current as int;
            let dd1 = digits_end(cs, i + 1);
            assert(frac == (dd1 + 1 < cs.len() && cs[dd1] == '.' && is_digit_c(cs[dd1 + 1])));
            assert(toks_of(final(self).tokens@) =~= toks_of(old(self).tokens@).push(
                tv(
                    TokenTypeV::NUMBER(digits_val(cs.subrange(i, dd1))),
                    cs.subrange(i, final(self).current as int),
                    old(self).line as nat,
                ),
            ));
        }
    }

    /// Consumes an identifier or a reserved word.
    #[verifier::rlimit(100)]
    #[verifier::spinoff_prover]
    fn handle_identifier(&mut self)
        requires
            old(self).wf(),
            old(self).current < old(self).source@.len(),
            is_alpha_c(old(self).source@[old(self).current as int]),
        ensures
            final(self).wf(),
            final(self).source == old(self).source,
            final(self).line == old(self).line,
            final(self).diagnostics == old(self).diagnostics,
            old(self).current < final(self).current,
            ({
                let cs = old(self).source@;
                let i = old(self).current as int;
                let line0 = old(self).line as nat;
                let e = ident_end(cs, i + 1);
                let word = cs.subrange(i, e);
                &&& final(self).current as int == e
                &&& toks_of(final(self).tokens@) == toks_of(old(self).tokens@).push(
                    match keyword_of(word) {
                        Some(tt) => tv(tt, word, line0),
                        None => tv(TokenTypeV::IDENTIFIER(word), word, line0),
                    },
                )
            }),
    {
        let ghost cs = self.source@;
        let n = self.source.len();
        proof {
            assert(self.current < n);
        }
        let e = ident_end_exec(&self.source, self.current + 1);
        let word = substring_of(&self.source, self.current, e);
        let t = match self.keyword(&word) {
            Some(tt) => Token::new(tt, word, self.line),
            None => {
                let payload = word.clone();
                Token::new(TokenType::IDENTIFIER(payload), word, self.line)
            },
        };
        self.tokens.push(t);
        self.current = e;
        proof {
            let i = old(self).current as int;
            let ee = ident_end(cs, i + 1);
            let wordv = cs.subrange(i, ee);
            assert(toks_of(final(self).tokens@) =~= toks_of(old(self).tokens@).push(
                match keyword_of(wordv) {
                    Some(tt) => tv(tt, wordv, old(self).line as nat),
                    None => tv(TokenTypeV::IDENTIFIER(wordv), wordv, old(self).line as nat),
                },
            ));
        }
    }

    /// Scans the whole source, exactly as `scan_spec` describes: the token
    /// list ends with a single end marker and the diagnostics are in source
    /// order.
    pub fn scan_tokens(&mut self) -> (r: &Vec<Token>)
        requires
            old(self).wf(),
            old(self).current == 0,
            old(self).line == 0,
            old(self).tokens@.len() == 0,
            old(self).diagnostics@.len() == 0,
        ensures
            final(self).source == old(self).source,
            r == &final(self).tokens,
            ({
                let (ts, ds) = scan_spec(old(self).source@, 0, 0);
                &&& toks_of(final(self).tokens@) == ts
                &&& diags_view(final(self).diagnostics@) == ds
            }),
    {
        let ghost cs = self.source@;
        let n = self.source.len();
        proof {
            assert(toks_of(self.tokens@) =~= Seq::<TokenV>::empty());
            assert(diags_view(self.diagnostics@) =~= Seq::<(nat, Seq<char>)>::empty());
            assert(Seq::<TokenV>::empty() + scan_spec(cs, 0, 0).0 =~= scan_spec(cs, 0, 0).0);
            assert(Seq::<(nat, Seq<char>)>::empty() + scan_spec(cs, 0, 0).1 =~= scan_spec(
                cs,
                0,
                0,
            ).1);
        }
        loop
            invariant
                self.wf(),
                cs == self.source@,
                self.source == old(self).source,
                n == cs.len(),
                scan_spec(cs, 0, 0).0 == toks_of(self.tokens@) + scan_spec(
                    cs,
                    self.current as int,
                    self.line as nat,
                ).0,
                scan_spec(cs, 0, 0).1 == diags_view(self.diagnostics@) + scan_spec(
                    cs,
                    self.current as int,
                    self.line as nat,
                ).1,
            decreases n - self.current,
        {
            reveal(scan_spec);
            if self.current >= n {
                let t = Token::new(TokenType::EOF, String::new(), self.line);
                let ghost toks0 = toks_of(self.tokens@);
                self.tokens.push(t);
                proof {
                    assert(toks_of(self.tokens@) =~= toks0.push(
                        tv(TokenTypeV::EOF, Seq::empty(), self.line as nat),
                    ));
                    assert(toks0 + seq![tv(TokenTypeV::EOF, Seq::empty(), self.line as nat)]
                        =~= toks_of(self.tokens@));
                    assert(diags_view(self.diagnostics@) + Seq::<(nat, Seq<char>)>::empty()
                        =~= diags_view(self.diagnostics@));
                }
                return &self.tokens;
            }
            let ghost pre = *self;
            self.scan_token();
            proof {
                let (j, l2, toks, dgs) = scan_step(cs, pre.current as int, pre.line as nat);
                assert(toks_of(pre.tokens@) + (toks + scan_spec(cs, j, l2).0) =~= (toks_of(
                    pre.tokens@,
                ) + toks) + scan_spec(cs, j, l2).0);
                assert(diags_view(pre.diagnostics@) + (dgs + scan_spec(cs, j, l2).1) =~= (
                diags_view(pre.diagnostics@) + dgs) + scan_spec(cs, j, l2).1);
            }
        }
    }
}

} // verus!
