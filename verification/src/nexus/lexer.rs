use vstd::prelude::*;

use crate::nexus::token::{Keywords, SpecToken, SpecTokenType, Symbols, Token, TokenType};

verus! {

broadcast use vstd::string::group_string_axioms;

// ---------------------------------------------------------------------------
// Character classes and lexemes
// ---------------------------------------------------------------------------
/// ASCII white space, as the `\s` class matches it on one ASCII character.
pub open spec fn is_space_char(c: char) -> bool {
    c == ' ' || ('\t' <= c && c <= '\r')
}

pub open spec fn is_lower_char(c: char) -> bool {
    'a' <= c && c <= 'z'
}

pub open spec fn is_digit_char(c: char) -> bool {
    '0' <= c && c <= '9'
}

/// The keyword spelled by `s`, if any.
pub open spec fn keyword_of(s: Seq<char>) -> Option<Keywords> {
    if s =~= seq!['i', 'f'] {
        Some(Keywords::If)
    } else if s =~= seq!['w', 'h', 'i', 'l', 'e'] {
        Some(Keywords::While)
    } else if s =~= seq!['p', 'r', 'i', 'n', 't'] {
        Some(Keywords::Print)
    } else if s =~= seq!['s', 't', 'r', 'i', 'n', 'g'] {
        Some(Keywords::String)
    } else if s =~= seq!['i', 'n', 't'] {
        Some(Keywords::Int)
    } else if s =~= seq!['b', 'o', 'o', 'l', 'e', 'a', 'n'] {
        Some(Keywords::Boolean)
    } else if s =~= seq!['t', 'r', 'u', 'e'] {
        Some(Keywords::True)
    } else if s =~= seq!['f', 'a', 'l', 's', 'e'] {
        Some(Keywords::False)
    } else {
        None
    }
}

/// The symbol spelled by `s`, if any.
pub open spec fn symbol_of(s: Seq<char>) -> Option<Symbols> {
    if s =~= seq!['('] {
        Some(Symbols::LParen)
    } else if s =~= seq![')'] {
        Some(Symbols::RParen)
    } else if s =~= seq!['{'] {
        Some(Symbols::LBrace)
    } else if s =~= seq!['}'] {
        Some(Symbols::RBrace)
    } else if s =~= seq!['+'] {
        Some(Symbols::AdditionOp)
    } else if s =~= seq!['=', '='] {
        Some(Symbols::EqOp)
    } else if s =~= seq!['!', '='] {
        Some(Symbols::NeqOp)
    } else if s =~= seq!['='] {
        Some(Symbols::AssignmentOp)
    } else if s =~= seq!['"'] {
        Some(Symbols::Quote)
    } else if s =~= seq!['$'] {
        Some(Symbols::EOP)
    } else {
        None
    }
}

/// `/*` or `*/`: each of them flips the comment mode.
pub open spec fn is_comment_marker(s: Seq<char>) -> bool {
    s =~= seq!['/', '*'] || s =~= seq!['*', '/']
}

/// The best token kind for the candidate lexeme `sub`, and the string mode
/// after it; `None` when `sub` is no lexeme.
pub open spec fn upgrade(sub: Seq<char>, in_string: bool) -> Option<(SpecTokenType, bool)> {
    if in_string {
        if (sub.len() == 1 && is_lower_char(sub[0])) || sub =~= seq![' '] {
            Some((SpecTokenType::Char(sub), true))
        } else if sub =~= seq!['"'] {
            Some((SpecTokenType::Symbol(Symbols::Quote), false))
        } else if sub.len() == 1 {
            Some((SpecTokenType::Unrecognized(sub), true))
        } else {
            None
        }
    } else {
        if keyword_of(sub) is Some {
            Some((SpecTokenType::Keyword(keyword_of(sub)->0), false))
        } else if sub.len() == 1 && is_lower_char(sub[0]) {
            Some((SpecTokenType::Identifier(sub), false))
        } else if symbol_of(sub) is Some {
            Some((SpecTokenType::Symbol(symbol_of(sub)->0), symbol_of(sub)->0 == Symbols::Quote))
        } else if sub.len() == 1 && is_digit_char(sub[0]) {
            Some((SpecTokenType::Digit((sub[0] as int - '0' as int) as u8), false))
        } else if sub.len() == 1 {
            Some((SpecTokenType::Unrecognized(sub), false))
        } else {
            None
        }
    }
}

// ---------------------------------------------------------------------------
// The scanner as a state machine
// ---------------------------------------------------------------------------
/// The scanner's state: `cur_start..best_end` is the best lexeme found so far
/// for the token that starts at `cur_start`, and `trailer` is the next
/// character to look at.
pub struct LexState {
    pub cur_start: int,
    pub best_end: int,
    pub trailer: int,
    pub line: int,
    pub col: int,
    pub cur_type: SpecTokenType,
    pub in_string: bool,
    pub in_comment: bool,
    pub comment_position: (usize, usize),
    pub tokens: Seq<SpecToken>,
    pub unclosed_strings: Seq<(usize, (usize, usize))>,
}

pub open spec fn lex_init() -> LexState {
    LexState {
        cur_start: 0,
        best_end: 0,
        trailer: 0,
        line: 1,
        col: 1,
        cur_type: SpecTokenType::Unrecognized(Seq::empty()),
        in_string: false,
        in_comment: false,
        comment_position: (0, 0),
        tokens: Seq::empty(),
        unclosed_strings: Seq::empty(),
    }
}

/// The position of the last quote symbol among `tokens`.
pub open spec fn last_quote(tokens: Seq<SpecToken>) -> Option<(usize, usize)>
    decreases tokens.len(),
{
    if tokens.len() == 0 {
        None
    } else if tokens.last().token_type == SpecTokenType::Symbol(Symbols::Quote) {
        Some(tokens.last().position)
    } else {
        last_quote(tokens.drop_last())
    }
}

/// First part of a step: a comment marker at the start of a search flips the
/// comment mode and is skipped (its two columns included).
pub open spec fn comment_step(src: Seq<char>, s: LexState) -> LexState {
    if s.cur_start == s.trailer && s.cur_start < src.len() - 1 && is_comment_marker(
        src.subrange(s.cur_start, s.cur_start + 2),
    ) {
        LexState {
            comment_position: if !s.in_comment {
                (s.line as usize, s.col as usize)
            } else {
                s.comment_position
            },
            in_comment: !s.in_comment,
            col: s.col + 2,
            cur_start: s.cur_start + 2,
            best_end: s.best_end + 2,
            trailer: s.trailer + 2,
            ..s
        }
    } else {
        s
    }
}

/// Whether the character at `trailer` extends the current candidate lexeme.
pub open spec fn extends_lexeme(src: Seq<char>, s: LexState) -> bool {
    &&& !s.in_comment
    &&& s.trailer < src.len()
    &&& (!is_space_char(src[s.trailer]) || (s.in_string && src[s.trailer] != '\n'))
}

/// Second part of a step: extend the candidate, emit the best token, or skip
/// one separating character.
pub open spec fn scan_step(src: Seq<char>, s: LexState) -> LexState {
    if extends_lexeme(src, s) {
        match upgrade(src.subrange(s.cur_start, s.trailer + 1), s.in_string) {
            Some((t, ins)) => LexState { best_end: s.trailer + 1, cur_type: t, in_string: ins, ..s },
            None => s,
        }
    } else if s.best_end - s.cur_start > 0 {
        LexState {
            tokens: s.tokens.push(
                SpecToken {
                    token_type: s.cur_type,
                    text: src.subrange(s.cur_start, s.best_end),
                    position: (s.line as usize, s.col as usize),
                },
            ),
            cur_type: SpecTokenType::Unrecognized(Seq::empty()),
            col: s.col + (s.best_end - s.cur_start),
            trailer: s.best_end - 1,
            cur_start: s.best_end,
            ..s
        }
    } else {
        let nl = s.trailer < src.len() && src[s.trailer] == '\n';
        LexState {
            cur_start: s.cur_start + 1,
            best_end: s.best_end + 1,
            line: if nl {
                s.line + 1
            } else {
                s.line
            },
            col: if nl {
                1
            } else {
                s.col + 1
            },
            in_string: if nl {
                false
            } else {
                s.in_string
            },
            unclosed_strings: if nl && s.in_string && last_quote(s.tokens) is Some {
                s.unclosed_strings.push((s.tokens.len() as usize, last_quote(s.tokens)->0))
            } else {
                s.unclosed_strings
            },
            ..s
        }
    }
}

/// One iteration of the scanner.
pub open spec fn lex_step(src: Seq<char>, s: LexState) -> LexState {
    let s2 = scan_step(src, comment_step(src, s));
    LexState { trailer: s2.trailer + 1, ..s2 }
}

/// The bounds that every reachable scanner state keeps.
pub open spec fn lex_state_ok(src: Seq<char>, s: LexState) -> bool {
    &&& 0 <= s.cur_start <= s.best_end <= s.trailer <= src.len() + 1
    &&& s.best_end == s.cur_start ==> s.trailer == s.cur_start
    &&& s.best_end > s.cur_start ==> s.best_end <= src.len()
    &&& 1 <= s.line <= s.cur_start + 1
    &&& 1 <= s.col <= s.cur_start + 1
}

/// A single character is always a lexeme.
pub proof fn lemma_single_char_upgrades(sub: Seq<char>, in_string: bool)
    requires
        sub.len() == 1,
    ensures
        upgrade(sub, in_string) is Some,
{
}

/// Every lowercase letter `a` to `z`, alone, is an identifier outside a
/// string literal and a character inside one; the string mode is unchanged.
pub proof fn lemma_lowercase_letter_lexeme(c: char)
    requires
        'a' <= c <= 'z',
    ensures
        upgrade(seq![c], false) == Some((SpecTokenType::Identifier(seq![c]), false)),
        upgrade(seq![c], true) == Some((SpecTokenType::Char(seq![c]), true)),
{
    assert(keyword_of(seq![c]) is None);
}

/// A decimal digit `0` to `9`, alone and outside a string literal, is a digit
/// token whose value is the digit's; inside a string literal it is
/// unrecognized.
pub proof fn lemma_digit_lexeme(c: char)
    requires
        '0' <= c <= '9',
    ensures
        upgrade(seq![c], false) matches Some((SpecTokenType::Digit(d), false)) && d == c as int - '0' as int,
        upgrade(seq![c], true) == Some((SpecTokenType::Unrecognized(seq![c]), true)),
{
    assert(keyword_of(seq![c]) is None);
    assert(symbol_of(seq![c]) is None);
}

pub proof fn lemma_lex_step_ok(src: Seq<char>, s: LexState)
    requires
        lex_state_ok(src, s),
        s.cur_start < src.len(),
    ensures
        lex_state_ok(src, lex_step(src, s)),
        lex_step(src, s).cur_start > s.cur_start || (lex_step(src, s).cur_start == s.cur_start
            && lex_step(src, s).trailer > s.trailer),
{
    let s1 = comment_step(src, s);
    if extends_lexeme(src, s1) {
        lemma_single_char_upgrades(src.subrange(s1.cur_start, s1.cur_start + 1), s1.in_string);
    }
}

/// Run the scanner until the start of the next search is past the input.
pub open spec fn lex_run(src: Seq<char>, s: LexState) -> LexState
    decreases src.len() + 2 - s.cur_start, src.len() + 2 - s.trailer,
    when lex_state_ok(src, s)
{
    if s.cur_start < src.len() {
        proof {
            lemma_lex_step_ok(src, s);
        }
        lex_run(src, lex_step(src, s))
    } else {
        s
    }
}

/// The final scanner state for a source text.
pub open spec fn lex_final(src: Seq<char>) -> LexState {
    lex_run(src, lex_init())
}

/// What the scanner reports for a source text.
pub struct SpecLexReport {
    pub tokens: Seq<SpecToken>,
    pub unclosed_strings: Seq<(usize, (usize, usize))>,
    pub unclosed_comment: Option<(usize, usize)>,
}

/// The unclosed strings of a final scanner state: those a line break ended,
/// then one still open at the end of the input.
pub open spec fn final_unclosed_strings(f: LexState) -> Seq<(usize, (usize, usize))> {
    if f.in_string && last_quote(f.tokens) is Some {
        f.unclosed_strings.push((f.tokens.len() as usize, last_quote(f.tokens)->0))
    } else {
        f.unclosed_strings
    }
}

pub open spec fn spec_lex(src: Seq<char>) -> SpecLexReport {
    let f = lex_final(src);
    SpecLexReport {
        tokens: f.tokens,
        unclosed_strings: final_unclosed_strings(f),
        unclosed_comment: if f.in_comment {
            Some(f.comment_position)
        } else {
            None
        },
    }
}

// ---------------------------------------------------------------------------
// The executable scanner
// ---------------------------------------------------------------------------
/// The tokens of a source text, with the unclosed strings (each ended by a
/// line break or by the end of the input: the number of tokens found before
/// it and the position of its opening quote) and the position of a comment
/// left open at the end.
pub struct LexReport {
    pub tokens: Vec<Token>,
    pub unclosed_strings: Vec<(usize, (usize, usize))>,
    pub unclosed_comment: Option<(usize, usize)>,
}

pub open spec fn token_views(tokens: Seq<Token>) -> Seq<SpecToken> {
    tokens.map_values(|t: Token| t@)
}

impl View for LexReport {
    type V = SpecLexReport;

    open spec fn view(&self) -> SpecLexReport {
        SpecLexReport {
            tokens: token_views(self.tokens@),
            unclosed_strings: self.unclosed_strings@,
            unclosed_comment: self.unclosed_comment,
        }
    }
}

/// The number of characters of an ASCII string.
fn ascii_len(s: &str) -> (n: usize)
    requires
        s.is_ascii(),
        s@.len() <= usize::MAX,
    ensures
        n == s@.len(),
{
    proof {
        vstd::string::is_ascii_spec_bytes(s);
    }
    s.len()
}

/// The character at `i` of an ASCII string.
fn char_at(s: &str, i: usize) -> (c: char)
    requires
        s.is_ascii(),
        i < s@.len(),
    ensures
        c == s@[i as int],
{
    let b = s.get_ascii(i);
    assert('\0' <= s@[i as int] <= '\u{7f}');
    b as char
}

fn is_space(c: char) -> (r: bool)
    ensures
        r == is_space_char(c),
{
    c == ' ' || ('\t' <= c && c <= '\r')
}

fn is_lower(c: char) -> (r: bool)
    ensures
        r == is_lower_char(c),
{
    'a' <= c && c <= 'z'
}

fn is_digit(c: char) -> (r: bool)
    ensures
        r == is_digit_char(c),
{
    '0' <= c && c <= '9'
}

/// The keyword spelled by an ASCII string.
fn match_keyword(s: &str) -> (r: Option<Keywords>)
    requires
        s.is_ascii(),
        s@.len() <= usize::MAX,
    ensures
        r == keyword_of(s@),
{
    let n = ascii_len(s);
    if n == 2 && char_at(s, 0) == 'i' && char_at(s, 1) == 'f' {
        assert(s@ =~= seq!['i', 'f']);
        return Some(Keywords::If);
    }
    if n == 5 && char_at(s, 0) == 'w' && char_at(s, 1) == 'h' && char_at(s, 2) == 'i' && char_at(
        s,
        3,
    ) == 'l' && char_at(s, 4) == 'e' {
        assert(s@ =~= seq!['w', 'h', 'i', 'l', 'e']);
        return Some(Keywords::While);
    }
    if n == 5 && char_at(s, 0) == 'p' && char_at(s, 1) == 'r' && char_at(s, 2) == 'i' && char_at(
        s,
        3,
    ) == 'n' && char_at(s, 4) == 't' {
        assert(s@ =~= seq!['p', 'r', 'i', 'n', 't']);
        return Some(Keywords::Print);
    }
    if n == 6 && char_at(s, 0) == 's' && char_at(s, 1) == 't' && char_at(s, 2) == 'r' && char_at(
        s,
        3,
    ) == 'i' && char_at(s, 4) == 'n' && char_at(s, 5) == 'g' {
        assert(s@ =~= seq!['s', 't', 'r', 'i', 'n', 'g']);
        return Some(Keywords::String);
    }
    if n == 3 && char_at(s, 0) == 'i' && char_at(s, 1) == 'n' && char_at(s, 2) == 't' {
        assert(s@ =~= seq!['i', 'n', 't']);
        return Some(Keywords::Int);
    }
    if n == 7 && char_at(s, 0) == 'b' && char_at(s, 1) == 'o' && char_at(s, 2) == 'o' && char_at(
        s,
        3,
    ) == 'l' && char_at(s, 4) == 'e' && char_at(s, 5) == 'a' && char_at(s, 6) == 'n' {
        assert(s@ =~= seq!['b', 'o', 'o', 'l', 'e', 'a', 'n']);
        return Some(Keywords::Boolean);
    }
    if n == 4 && char_at(s, 0) == 't' && char_at(s, 1) == 'r' && char_at(s, 2) == 'u' && char_at(
        s,
        3,
    ) == 'e' {
        assert(s@ =~= seq!['t', 'r', 'u', 'e']);
        return Some(Keywords::True);
    }
    if n == 5 && char_at(s, 0) == 'f' && char_at(s, 1) == 'a' && char_at(s, 2) == 'l' && char_at(
        s,
        3,
    ) == 's' && char_at(s, 4) == 'e' {
        assert(s@ =~= seq!['f', 'a', 'l', 's', 'e']);
        return Some(Keywords::False);
    }
    None
}

/// The symbol spelled by an ASCII string.
fn match_symbol(s: &str) -> (r: Option<Symbols>)
    requires
        s.is_ascii(),
        s@.len() <= usize::MAX,
    ensures
        r == symbol_of(s@),
{
    let n = ascii_len(s);
    if n == 1 {
        let c = char_at(s, 0);
        assert(s@ =~= seq![c]);
        if c == '(' {
            return Some(Symbols::LParen);
        } else if c == ')' {
            return Some(Symbols::RParen);
        } else if c == '{' {
            return Some(Symbols::LBrace);
        } else if c == '}' {
            return Some(Symbols::RBrace);
        } else if c == '+' {
            return Some(Symbols::AdditionOp);
        } else if c == '=' {
            return Some(Symbols::AssignmentOp);
        } else if c == '"' {
            return Some(Symbols::Quote);
        } else if c == '$' {
            return Some(Symbols::EOP);
        }
        return None;
    }
    if n == 2 && char_at(s, 1) == '=' {
        let c = char_at(s, 0);
        assert(s@ =~= seq![c, '=']);
        if c == '=' {
            return Some(Symbols::EqOp);
        } else if c == '!' {
            return Some(Symbols::NeqOp);
        }
    }
    None
}

/// Try to make `substr` the best lexeme so far: on success the best kind and
/// the string mode are updated and `true` is returned.
fn upgrade_token(substr: &str, best_token_type: &mut TokenType, in_string: &mut bool) -> (r: bool)
    requires
        substr.is_ascii(),
        substr@.len() <= usize::MAX,
    ensures
        r == (upgrade(substr@, *old(in_string)) is Some),
        r ==> upgrade(substr@, *old(in_string)) == Some((final(best_token_type)@, *final(in_string))),
        !r ==> *final(best_token_type) == *old(best_token_type) && *final(in_string) == *old(
            in_string,
        ),
{
    let n = ascii_len(substr);
    if *in_string {
        if (n == 1 && is_lower(char_at(substr, 0))) || (n == 1 && char_at(substr, 0) == ' ') {
            proof {
                if substr@[0] == ' ' {
                    assert(substr@ =~= seq![' ']);
                }
            }
            *best_token_type = TokenType::Char(String::from_str(substr));
            return true;
        } else if n == 1 && char_at(substr, 0) == '"' {
            assert(substr@ =~= seq!['"']);
            *best_token_type = TokenType::Symbol(Symbols::Quote);
            *in_string = false;
            return true;
        } else if n == 1 {
            *best_token_type = TokenType::Unrecognized(String::from_str(substr));
            return true;
        }
    } else {
        let kw = match_keyword(substr);
        if let Some(k) = kw {
            *best_token_type = TokenType::Keyword(k);
            return true;
        } else if n == 1 && is_lower(char_at(substr, 0)) {
            *best_token_type = TokenType::Identifier(String::from_str(substr));
            return true;
        } else {
            let sym = match_symbol(substr);
            if let Some(s) = sym {
                *best_token_type = TokenType::Symbol(s);
                if s == Symbols::Quote {
                    *in_string = true;
                }
                return true;
            } else if n == 1 && is_digit(char_at(substr, 0)) {
                let c = char_at(substr, 0);
                let d: u8 = (c as u8) - 48;
                *best_token_type = TokenType::Digit(d);
                return true;
            } else if n == 1 {
                *best_token_type = TokenType::Unrecognized(String::from_str(substr));
                return true;
            }
        }
    }
    false
}

/// The position of the last quote symbol in the token stream.
fn find_last_quote(tokens: &Vec<Token>) -> (r: Option<(usize, usize)>)
    ensures
        r == last_quote(token_views(tokens@)),
{
    let mut i: usize = tokens.len();
    assert(token_views(tokens@).take(i as int) =~= token_views(tokens@));
    while i > 0
        invariant
            i <= tokens.len(),
            last_quote(token_views(tokens@)) == last_quote(token_views(tokens@).take(i as int)),
        decreases i,
    {
        let ghost prefix = token_views(tokens@).take(i as int);
        assert(prefix.drop_last() =~= token_views(tokens@).take(i - 1));
        if tokens[i - 1].token_type.is_symbol(Symbols::Quote) {
            return Some(tokens[i - 1].position);
        }
        i = i - 1;
    }
    assert(token_views(tokens@).take(0) =~= Seq::<SpecToken>::empty());
    None
}

/// Lex a whole source text into tokens, recording unclosed strings and an
/// unclosed comment.
pub fn lex_report(source_code: &str) -> (r: LexReport)
    requires
        source_code.is_ascii(),
        source_code@.len() + 2 < usize::MAX,
    ensures
        r@ == spec_lex(source_code@),
{
    let ghost src = source_code@;
    let len = ascii_len(source_code);
    let mut token_stream: Vec<Token> = Vec::new();
    let mut unclosed_strings: Vec<(usize, (usize, usize))> = Vec::new();
    let mut line_number: usize = 1;
    let mut col_number: usize = 1;
    let mut cur_start: usize = 0;
    let mut best_end: usize = 0;
    let mut cur_token_type: TokenType = TokenType::Unrecognized(String::new());
    let mut trailer: usize = 0;
    let mut in_string: bool = false;
    let mut in_comment: bool = false;
    let mut comment_position: (usize, usize) = (0, 0);

    let ghost init = lex_init();
    assert(token_views(token_stream@) =~= Seq::<SpecToken>::empty());

    while cur_start < len
        invariant
            len == src.len(),
            src == source_code@,
            source_code.is_ascii(),
            src.len() + 2 < usize::MAX,
            ({
                let s = LexState {
                    cur_start: cur_start as int,
                    best_end: best_end as int,
                    trailer: trailer as int,
                    line: line_number as int,
                    col: col_number as int,
                    cur_type: cur_token_type@,
                    in_string,
                    in_comment,
                    comment_position,
                    tokens: token_views(token_stream@),
                    unclosed_strings: unclosed_strings@,
                };
                lex_state_ok(src, s) && lex_run(src, s) == lex_run(src, init)
            }),
        decreases len + 2 - cur_start, len + 2 - trailer,
    {
        let ghost s0 = LexState {
            cur_start: cur_start as int,
            best_end: best_end as int,
            trailer: trailer as int,
            line: line_number as int,
            col: col_number as int,
            cur_type: cur_token_type@,
            in_string,
            in_comment,
            comment_position,
            tokens: token_views(token_stream@),
            unclosed_strings: unclosed_strings@,
        };
        proof {
            lemma_lex_step_ok(src, s0);
        }
        // A comment marker at the start of a search flips the comment mode.
        if cur_start == trailer && cur_start < len - 1 {
            let c0 = char_at(source_code, cur_start);
            let c1 = char_at(source_code, cur_start + 1);
            assert(src.subrange(cur_start as int, cur_start + 2) =~= seq![c0, c1]);
            if (c0 == '/' && c1 == '*') || (c0 == '*' && c1 == '/') {
                if !in_comment {
                    comment_position = (line_number, col_number);
                }
                in_comment = !in_comment;
                col_number += 2;
                cur_start += 2;
                best_end += 2;
                trailer += 2;
            }
        }
        let ghost s1 = LexState {
            cur_start: cur_start as int,
            best_end: best_end as int,
            trailer: trailer as int,
            line: line_number as int,
            col: col_number as int,
            cur_type: cur_token_type@,
            in_string,
            in_comment,
            comment_position,
            tokens: token_views(token_stream@),
            unclosed_strings: unclosed_strings@,
        };
        assert(s1 == comment_step(src, s0));

        let has_char = trailer < len;
        let mut cur_char: char = ' ';
        if has_char {
            cur_char = char_at(source_code, trailer);
        }
        if !in_comment && has_char && (!is_space(cur_char) || (in_string && cur_char != '\n')) {
            let cur_sub: &str = source_code.substring_ascii(cur_start, trailer + 1);
            if upgrade_token(cur_sub, &mut cur_token_type, &mut in_string) {
                best_end = trailer + 1;
            }
        } else {
            if best_end - cur_start > 0 {
                let new_token: Token = Token::new(
                    cur_token_type,
                    String::from_str(source_code.substring_ascii(cur_start, best_end)),
                    line_number,
                    col_number,
                );
                let ghost old_tokens = token_stream@;
                token_stream.push(new_token);
                assert(token_views(token_stream@) =~= token_views(old_tokens).push(new_token@));
                cur_token_type = TokenType::Unrecognized(String::new());
                col_number += best_end - cur_start;
                trailer = best_end - 1;
                cur_start = trailer + 1;
            } else {
                cur_start += 1;
                best_end += 1;
                if has_char && cur_char == '\n' {
                    if in_string {
                        let q = find_last_quote(&token_stream);
                        if let Some(p) = q {
                            unclosed_strings.push((token_stream.len(), p));
                        }
                        in_string = false;
                    }
                    line_number += 1;
                    col_number = 1;
                } else {
                    col_number += 1;
                }
            }
        }
        let ghost s2 = LexState {
            cur_start: cur_start as int,
            best_end: best_end as int,
            trailer: trailer as int,
            line: line_number as int,
            col: col_number as int,
            cur_type: cur_token_type@,
            in_string,
            in_comment,
            comment_position,
            tokens: token_views(token_stream@),
            unclosed_strings: unclosed_strings@,
        };
        assert(s2 == scan_step(src, s1));
        trailer += 1;
    }
    let ghost fin = LexState {
        cur_start: cur_start as int,
        best_end: best_end as int,
        trailer: trailer as int,
        line: line_number as int,
        col: col_number as int,
        cur_type: cur_token_type@,
        in_string,
        in_comment,
        comment_position,
        tokens: token_views(token_stream@),
        unclosed_strings: unclosed_strings@,
    };
    assert(lex_run(src, fin) == fin);
    if in_string {
        if let Some(p) = find_last_quote(&token_stream) {
            unclosed_strings.push((token_stream.len(), p));
        }
    }
    let unclosed_comment = if in_comment {
        Some(comment_position)
    } else {
        None
    };
    LexReport { tokens: token_stream, unclosed_strings, unclosed_comment }
}

/// Lex a whole source text into tokens.
pub fn lex(source_code: &str) -> (r: Vec<Token>)
    requires
        source_code.is_ascii(),
        source_code@.len() + 2 < usize::MAX,
    ensures
        token_views(r@) == spec_lex(source_code@).tokens,
{
    lex_report(source_code).tokens
}

} // verus!
