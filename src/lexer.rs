//! The block lexer: source text to a tree of tokens in which each indented
//! region becomes a `Block` token.
use vstd::prelude::*;

use crate::ast::{get_operand, get_type, operand_named, type_named};
use crate::error::{ErrorKind, ParserError, Position};
use crate::text::same_text;

verus! {

/// The kind of a token. `Block` carries the tokens of an indented region.
#[derive(Debug)]
pub enum TokenType {
    IntLiteral,
    FloatLiteral,
    StringLiteral,
    BoolLiteral,
    Identifier,
    Keyword,
    Type,
    Symbol,
    Operator,
    EOL,
    Block(Vec<Token>),
}

/// A token: its kind, its text and where it starts.
#[derive(Debug)]
pub struct Token {
    pub token_type: TokenType,
    pub content: String,
    pub position: Position,
}

/// The mathematical model of a [`TokenType`].
pub enum KindV {
    IntLiteral,
    FloatLiteral,
    StringLiteral,
    BoolLiteral,
    Identifier,
    Keyword,
    Type,
    Symbol,
    Operator,
    EOL,
    Block(Seq<TokenV>),
}

/// The mathematical model of a [`Token`].
pub struct TokenV {
    pub kind: KindV,
    pub content: Seq<char>,
    pub position: Position,
}

impl View for Token {
    type V = TokenV;

    open spec fn view(&self) -> TokenV
        decreases self,
    {
        TokenV { kind: kind_view(self.token_type), content: self.content@, position: self.position }
    }
}

/// The model of a token kind.
pub open spec fn kind_view(k: TokenType) -> KindV
    decreases k,
{
    match k {
        TokenType::IntLiteral => KindV::IntLiteral,
        TokenType::FloatLiteral => KindV::FloatLiteral,
        TokenType::StringLiteral => KindV::StringLiteral,
        TokenType::BoolLiteral => KindV::BoolLiteral,
        TokenType::Identifier => KindV::Identifier,
        TokenType::Keyword => KindV::Keyword,
        TokenType::Type => KindV::Type,
        TokenType::Symbol => KindV::Symbol,
        TokenType::Operator => KindV::Operator,
        TokenType::EOL => KindV::EOL,
        TokenType::Block(c) => KindV::Block(tokens_view(c@)),
    }
}

/// The models of a list of tokens.
pub open spec fn tokens_view(s: Seq<Token>) -> Seq<TokenV>
    decreases s,
{
    if s.len() == 0 {
        Seq::empty()
    } else {
        tokens_view(s.subrange(0, s.len() - 1)).push(s[s.len() - 1].view())
    }
}

pub proof fn lemma_tokens_view(s: Seq<Token>)
    ensures
        tokens_view(s).len() == s.len(),
        forall|k: int| 0 <= k < s.len() ==> #[trigger] tokens_view(s)[k] == s[k]@,
    decreases s.len(),
{
    if s.len() > 0 {
        let init = s.subrange(0, s.len() - 1);
        lemma_tokens_view(init);
        assert(tokens_view(s) == tokens_view(init).push(s[s.len() - 1]@));
        assert forall|k: int| 0 <= k < s.len() implies #[trigger] tokens_view(s)[k] == s[k]@ by {
            if k < s.len() - 1 {
                assert(init[k] == s[k]);
            }
        }
    } else {
        assert(tokens_view(s) == Seq::<TokenV>::empty());
    }
}

pub proof fn lemma_tokens_push(s: Seq<Token>, x: Token)
    ensures
        tokens_view(s.push(x)) == tokens_view(s).push(x@),
{
    assert(s.push(x).subrange(0, s.len() as int) =~= s);
}

/// The physical lines of `s`, split at each `'\n'`.
pub open spec fn lines_of(s: Seq<char>) -> Seq<Seq<char>>
    decreases s.len(),
{
    if s.len() == 0 {
        seq![Seq::empty()]
    } else {
        let p = lines_of(s.subrange(0, s.len() - 1));
        if s[s.len() - 1] == '\n' {
            p.push(Seq::empty())
        } else {
            p.update(p.len() - 1, p[p.len() - 1].push(s[s.len() - 1]))
        }
    }
}

/// Whether a position names a character of the source: a line that exists
/// and a column within that line.
pub open spec fn pos_in(p: Position, lines: Seq<Seq<char>>) -> bool {
    &&& 1 <= p.line <= lines.len()
    &&& 1 <= p.col <= lines[p.line - 1].len()
}

/// Whether every token of a sequence, nested ones included, has a position
/// inside `lines`.
pub open spec fn tokens_in(toks: Seq<Token>, lines: Seq<Seq<char>>) -> bool
    decreases toks,
{
    forall|i: int|
        0 <= i < toks.len() ==> {
            &&& pos_in(#[trigger] toks[i].position, lines)
            &&& (toks[i].token_type matches TokenType::Block(c) ==> tokens_in(c@, lines))
        }
}

/// Whether a token, and every token nested in it, has a position inside
/// `lines`.
pub open spec fn token_in(t: Token, lines: Seq<Seq<char>>) -> bool {
    &&& pos_in(t.position, lines)
    &&& (t.token_type matches TokenType::Block(c) ==> tokens_in(c@, lines))
}

proof fn lemma_tokens_in_push(s: Seq<Token>, t: Token, lines: Seq<Seq<char>>)
    requires
        tokens_in(s, lines),
        token_in(t, lines),
    ensures
        tokens_in(s.push(t), lines),
{
    assert forall|i: int| 0 <= i < s.push(t).len() implies token_in(#[trigger] s.push(t)[i], lines) by {
        if i < s.len() {
            assert(s.push(t)[i] == s[i]);
            assert(pos_in(s[i].position, lines));
        } else {
            assert(s.push(t)[i] == t);
        }
    }
}

proof fn lemma_tokens_in_concat(a: Seq<Token>, b: Seq<Token>, lines: Seq<Seq<char>>)
    requires
        tokens_in(a, lines),
        tokens_in(b, lines),
    ensures
        tokens_in(a + b, lines),
{
    assert forall|i: int| 0 <= i < (a + b).len() implies token_in(#[trigger] (a + b)[i], lines) by {
        if i < a.len() {
            assert((a + b)[i] == a[i]);
            assert(pos_in(a[i].position, lines));
        } else {
            assert((a + b)[i] == b[i - a.len()]);
            assert(pos_in(b[i - a.len()].position, lines));
        }
    }
}

pub open spec fn is_space(c: char) -> bool {
    c == ' ' || c == '\t' || c == '\r'
}

pub open spec fn is_digit(c: char) -> bool {
    '0' <= c <= '9'
}

pub open spec fn is_word_start(c: char) -> bool {
    ('a' <= c <= 'z') || ('A' <= c <= 'Z') || c == '_'
}

pub open spec fn is_word_char(c: char) -> bool {
    is_word_start(c) || is_digit(c)
}

/// The symbols of the language.
pub open spec fn is_symbol_text(s: Seq<char>) -> bool {
    s == ".."@ || s == ":"@ || s == ","@ || s == "!"@ || s == "="@ || s == "("@ || s == ")"@
        || s == "["@ || s == "]"@ || s == "."@
}

/// Words that are not identifiers.
pub open spec fn is_reserved(s: Seq<char>) -> bool {
    s == "fun"@ || s == "true"@ || s == "false"@ || operand_named(s) is Some || type_named(s) is Some
}

/// What the kind of a token says of its text.
pub open spec fn kind_fits(t: Token) -> bool {
    let s = t.content@;
    match t.token_type {
        TokenType::Keyword => s == "fun"@,
        TokenType::Type => type_named(s) is Some,
        TokenType::BoolLiteral => s == "true"@ || s == "false"@,
        TokenType::Operator => operand_named(s) is Some,
        TokenType::Symbol => is_symbol_text(s),
        TokenType::Identifier => !is_reserved(s) && s.len() > 0 && is_word_start(s[0])
            && forall|k: int| 0 <= k < s.len() ==> is_word_char(#[trigger] s[k]),
        TokenType::IntLiteral => s.len() > 0 && forall|k: int| 0 <= k < s.len() ==> is_digit(#[trigger] s[k]),
        TokenType::FloatLiteral => s.len() > 0 && is_digit(s[0])
            && forall|k: int| 0 <= k < s.len() ==> (is_digit(#[trigger] s[k]) || s[k] == '.'),
        TokenType::StringLiteral => true,
        _ => false,
    }
}

/// Whether a token scanned from `line` (line number `n`) holds the text that
/// the line holds at its column: a string literal without its quotes, any
/// other token as written.
pub open spec fn token_fits_line(t: Token, line: Seq<char>, n: usize) -> bool {
    let c = t.position.col as int;
    let len = t.content@.len() as int;
    &&& t.position.line == n
    &&& 1 <= c <= line.len()
    &&& kind_fits(t)
    &&& if t.token_type is StringLiteral {
        &&& c + len < line.len()
        &&& line[c - 1] == '"'
        &&& line[c + len] == '"'
        &&& t.content@ == line.subrange(c, c + len)
    } else {
        &&& c - 1 + len <= line.len()
        &&& t.content@ == line.subrange(c - 1, c - 1 + len)
    }
}

/// The first index at or after `j` that holds `"`, or the line's end.
pub open spec fn quote_end(line: Seq<char>, j: int) -> int
    decreases line.len() - j,
{
    if 0 <= j < line.len() && line[j] != '"' {
        quote_end(line, j + 1)
    } else {
        j
    }
}

/// The first index at or after `j` that holds no digit.
pub open spec fn digits_end(line: Seq<char>, j: int) -> int
    decreases line.len() - j,
{
    if 0 <= j < line.len() && is_digit(line[j]) {
        digits_end(line, j + 1)
    } else {
        j
    }
}

/// The first index at or after `j` that holds no word character.
pub open spec fn word_end(line: Seq<char>, j: int) -> int
    decreases line.len() - j,
{
    if 0 <= j < line.len() && is_word_char(line[j]) {
        word_end(line, j + 1)
    } else {
        j
    }
}

/// The kind of a scanned word.
pub open spec fn kind_of_word(w: Seq<char>) -> KindV {
    if w == "fun"@ {
        KindV::Keyword
    } else if w == "true"@ || w == "false"@ {
        KindV::BoolLiteral
    } else if operand_named(w) is Some {
        KindV::Operator
    } else if type_named(w) is Some {
        KindV::Type
    } else {
        KindV::Identifier
    }
}

/// Scanning from `i` to `nx` moves forward and stays in the line.
pub open spec fn advances(line: Seq<char>, i: int, nx: int) -> bool {
    i < nx <= line.len()
}

/// The tokens of line number `n` from index `i` on, after those in `acc`.
pub open spec fn sp_scan(line: Seq<char>, i: int, n: usize, acc: Seq<TokenV>) -> Result<Seq<TokenV>, (ErrorKind, Option<Position>)>
    decreases line.len() - i,
{
    if i < 0 || i >= line.len() {
        Ok(acc)
    } else {
        let c = line[i];
        let pos = Position { line: n, col: (i + 1) as usize };
        if is_space(c) {
            sp_scan(line, i + 1, n, acc)
        } else if c == '"' {
            let j = quote_end(line, i + 1);
            if j >= line.len() {
                Err((ErrorKind::UnterminatedString, Some(pos)))
            } else if advances(line, i, j + 1) {
                sp_scan(line, j + 1, n, acc.push(TokenV { kind: KindV::StringLiteral, content: line.subrange(i + 1, j), position: pos }))
            } else {
                Ok(acc)
            }
        } else if is_digit(c) {
            let j = digits_end(line, i + 1);
            if 0 <= j && line.len() - j > 1 && line[j] == '.' && is_digit(line[j + 1]) {
                let j2 = digits_end(line, j + 1);
                if advances(line, i, j2) {
                    sp_scan(line, j2, n, acc.push(TokenV { kind: KindV::FloatLiteral, content: line.subrange(i, j2), position: pos }))
                } else {
                    Ok(acc)
                }
            } else if advances(line, i, j) {
                sp_scan(line, j, n, acc.push(TokenV { kind: KindV::IntLiteral, content: line.subrange(i, j), position: pos }))
            } else {
                Ok(acc)
            }
        } else if is_word_start(c) {
            let j = word_end(line, i + 1);
            if advances(line, i, j) {
                let w = line.subrange(i, j);
                sp_scan(line, j, n, acc.push(TokenV { kind: kind_of_word(w), content: w, position: pos }))
            } else {
                Ok(acc)
            }
        } else if i + 1 < line.len() && operand_named(line.subrange(i, i + 2)) is Some {
            sp_scan(line, i + 2, n, acc.push(TokenV { kind: KindV::Operator, content: line.subrange(i, i + 2), position: pos }))
        } else if i + 1 < line.len() && line.subrange(i, i + 2) == ".."@ {
            sp_scan(line, i + 2, n, acc.push(TokenV { kind: KindV::Symbol, content: line.subrange(i, i + 2), position: pos }))
        } else {
            let one = line.subrange(i, i + 1);
            if operand_named(one) is Some && one != "!"@ {
                sp_scan(line, i + 1, n, acc.push(TokenV { kind: KindV::Operator, content: one, position: pos }))
            } else if is_symbol_text(one) {
                sp_scan(line, i + 1, n, acc.push(TokenV { kind: KindV::Symbol, content: one, position: pos }))
            } else {
                Err((ErrorKind::InvalidCharacter, Some(pos)))
            }
        }
    }
}

/// `a + b`, or the largest `usize` where that does not fit.
pub open spec fn sat_add(a: usize, b: usize) -> usize {
    if a + b > usize::MAX {
        usize::MAX
    } else {
        (a + b) as usize
    }
}

/// The end of a line's leading whitespace from `j` on, and the indentation
/// it measures (added to `ind`): a space counts one, a tab `tab`.
pub open spec fn lead(line: Seq<char>, tab: u32, j: int, ind: usize) -> (int, usize)
    decreases line.len() - j,
{
    if 0 <= j < line.len() && is_space(line[j]) {
        lead(
            line,
            tab,
            j + 1,
            if line[j] == '\t' {
                sat_add(ind, tab as usize)
            } else if line[j] == ' ' {
                sat_add(ind, 1)
            } else {
                ind
            },
        )
    } else {
        (j, ind)
    }
}

/// The `Block` token for the tokens of an indented region.
pub open spec fn block_of(c: Seq<TokenV>) -> TokenV {
    TokenV { kind: KindV::Block(c), content: Seq::empty(), position: c[0].position }
}

/// The state of block building: the tokens of the innermost open region,
/// those of the enclosing regions, and the indentation of each open region.
pub type LexState = (Seq<TokenV>, Seq<Seq<TokenV>>, Seq<usize>);

/// Closes open regions deeper than `indent`: each becomes a `Block` token
/// at the end of the region around it.
pub open spec fn close_to(st: LexState, indent: usize) -> LexState
    decreases st.2.len(),
{
    if st.2.len() > 1 && indent < st.2.last() && st.1.len() > 0 {
        let outer = st.1.last().push(block_of(st.0));
        close_to((outer, st.1.subrange(0, st.1.len() - 1), st.2.subrange(0, st.2.len() - 1)), indent)
    } else {
        st
    }
}

/// Closes every open region.
pub open spec fn close_all(cur: Seq<TokenV>, parents: Seq<Seq<TokenV>>) -> Seq<TokenV>
    decreases parents.len(),
{
    if parents.len() > 0 {
        close_all(parents.last().push(block_of(cur)), parents.subrange(0, parents.len() - 1))
    } else {
        cur
    }
}

/// Sets the state up for a line of indentation `indent`: the first line
/// fixes the outer level, a deeper line opens a region, a shallower one
/// closes regions down to its level, which must be an open level.
pub open spec fn open_step(st: LexState, indent: usize, pos: Position) -> Result<LexState, (ErrorKind, Option<Position>)> {
    if st.2.len() == 0 {
        Ok((st.0, st.1, seq![indent]))
    } else if indent > st.2.last() {
        Ok((Seq::empty(), st.1.push(st.0), st.2.push(indent)))
    } else {
        let c = close_to(st, indent);
        if indent != c.2.last() {
            Err((ErrorKind::BadIndent, Some(pos)))
        } else {
            Ok(c)
        }
    }
}

/// Adds line `k` to the state: a blank line changes nothing; a deeper line
/// opens a region, a shallower one closes regions down to its level (which
/// must be an open level); then the line's tokens and an `EOL` follow.
pub open spec fn line_step(line: Seq<char>, k: int, tab: u32, st: LexState) -> Result<LexState, (ErrorKind, Option<Position>)> {
    let (j, indent) = lead(line, tab, 0, 0);
    if j >= line.len() {
        Ok(st)
    } else {
        let pos = Position { line: (k + 1) as usize, col: (j + 1) as usize };
        match open_step(st, indent, pos) {
            Err(e) => Err(e),
            Ok(s) => match sp_scan(line, j, (k + 1) as usize, Seq::empty()) {
                Err(e) => Err(e),
                Ok(toks) => Ok(
                    (
                        (s.0 + toks).push(
                            TokenV {
                                kind: KindV::EOL,
                                content: "\n"@,
                                position: Position { line: (k + 1) as usize, col: line.len() as usize },
                            },
                        ),
                        s.1,
                        s.2,
                    ),
                ),
            },
        }
    }
}

/// Adds lines `k` onward to the state.
pub open spec fn lex_lines(ls: Seq<Seq<char>>, k: int, tab: u32, st: LexState) -> Result<LexState, (ErrorKind, Option<Position>)>
    decreases ls.len() - k,
{
    if k < 0 || k >= ls.len() {
        Ok(st)
    } else {
        match line_step(ls[k], k, tab, st) {
            Err(e) => Err(e),
            Ok(s) => lex_lines(ls, k + 1, tab, s),
        }
    }
}

/// The state before the first line: nothing open.
pub open spec fn lex_init() -> LexState {
    (Seq::empty(), Seq::empty(), Seq::empty())
}

/// The children of the root block that lexing `src` gives, or the error.
pub open spec fn lex_spec(src: Seq<char>, tab: u32) -> Result<Seq<TokenV>, (ErrorKind, Option<Position>)> {
    match lex_lines(lines_of(src), 0, tab, lex_init()) {
        Err(e) => Err(e),
        Ok(s) => Ok(close_all(s.0, s.1)),
    }
}

/// Relies on std's `String::from_iter` over chars: the string holds
/// exactly the characters `v[a..b]`, in order.
#[verifier::external_body]
fn text_of(v: &Vec<char>, a: usize, b: usize) -> (r: String)
    requires
        a <= b <= v.len(),
    ensures
        r@ == v@.subrange(a as int, b as int),
{
    String::from_iter(&v[a..b])
}

/// The characters of a string slice.
pub fn chars_of(s: &str) -> (r: Vec<char>)
    ensures
        r@ == s@,
{
    let n = s.unicode_len();
    let mut out: Vec<char> = Vec::new();
    let mut i: usize = 0;
    while i < n
        invariant
            n == s@.len(),
            i <= n,
            out@ == s@.subrange(0, i as int),
        decreases n - i,
    {
        out.push(s.get_char(i));
        i = i + 1;
    }
    assert(out@ =~= s@);
    out
}

/// Splits text into its physical lines.
pub fn split_lines(s: &Vec<char>) -> (r: Vec<Vec<char>>)
    ensures
        r.len() == lines_of(s@).len(),
        forall|k: int| 0 <= k < r.len() ==> #[trigger] r@[k]@ == lines_of(s@)[k],
{
    let mut done: Vec<Vec<char>> = Vec::new();
    let mut cur: Vec<char> = Vec::new();
    let mut i: usize = 0;
    while i < s.len()
        invariant
            i <= s.len(),
            lines_of(s@.subrange(0, i as int)).len() == done.len() + 1,
            forall|k: int| 0 <= k < done.len() ==> #[trigger] done@[k]@ == lines_of(s@.subrange(0, i as int))[k],
            cur@ == lines_of(s@.subrange(0, i as int))[done.len() as int],
        decreases s.len() - i,
    {
        let c = s[i];
        proof {
            assert(s@.subrange(0, i + 1).subrange(0, i as int) =~= s@.subrange(0, i as int));
        }
        if c == '\n' {
            done.push(cur);
            cur = Vec::new();
        } else {
            cur.push(c);
        }
        i = i + 1;
    }
    done.push(cur);
    assert(s@.subrange(0, s.len() as int) =~= s@);
    done
}

/// Whether a scanning result agrees with the tokens or error that
/// [`sp_scan`] gives.
pub open spec fn scan_agrees(r: Result<Vec<Token>, ParserError>, s: Result<Seq<TokenV>, (ErrorKind, Option<Position>)>) -> bool {
    match s {
        Ok(v) => r matches Ok(x) && tokens_view(x@) == v,
        Err(e) => r matches Err(x) && x.kind == e.0 && x.position == e.1,
    }
}

/// Scans the tokens of one line, from column `start` (0-based) on. `n` is
/// the line's number.
pub fn scan_line(line: &Vec<char>, start: usize, n: usize) -> (r: Result<Vec<Token>, ParserError>)
    requires
        start <= line.len(),
    ensures
        scan_agrees(r, sp_scan(line@, start as int, n, Seq::empty())),
        r matches Ok(toks) ==> forall|i: int| 0 <= i < toks.len() ==> #[trigger] token_fits_line(toks@[i], line@, n),
        r matches Err(e) ==> (e.kind == ErrorKind::InvalidCharacter || e.kind == ErrorKind::UnterminatedString)
            && (e.position matches Some(p) && p.line == n && 1 <= p.col <= line.len()),
{
    let len = line.len();
    let mut toks: Vec<Token> = Vec::new();
    let mut i: usize = start;
    assert(tokens_view(toks@) =~= Seq::<TokenV>::empty());
    while i < len
        invariant
            len == line.len(),
            start <= i <= len,
            forall|k: int| 0 <= k < toks.len() ==> #[trigger] token_fits_line(toks@[k], line@, n),
            sp_scan(line@, i as int, n, tokens_view(toks@)) == sp_scan(line@, start as int, n, Seq::empty()),
        decreases len - i,
    {
        let c = line[i];
        let pos = Position { line: n, col: i + 1 };
        let ghost before = toks@;
        if c == ' ' || c == '\t' || c == '\r' {
            i = i + 1;
        } else if c == '"' {
            let mut j: usize = i + 1;
            while j < len && line[j] != '"'
                invariant
                    i < j <= len,
                    len == line.len(),
                    quote_end(line@, j as int) == quote_end(line@, i + 1),
                decreases len - j,
            {
                j = j + 1;
            }
            if j >= len {
                return Err(ParserError::new_pos(ErrorKind::UnterminatedString, pos, "string literal runs past the end of the line"));
            }
            let content = text_of(line, i + 1, j);
            let t = Token { token_type: TokenType::StringLiteral, content, position: pos };
            proof {
                lemma_tokens_push(before, t);
            }
            toks.push(t);
            i = j + 1;
        } else if '0' <= c && c <= '9' {
            let mut j: usize = i + 1;
            while j < len && '0' <= line[j] && line[j] <= '9'
                invariant
                    i < j <= len,
                    len == line.len(),
                    forall|k: int| i <= k < j ==> is_digit(#[trigger] line@[k]),
                    digits_end(line@, j as int) == digits_end(line@, i + 1),
                decreases len - j,
            {
                j = j + 1;
            }
            let mut float = false;
            if len - j > 1 && line[j] == '.' && '0' <= line[j + 1] && line[j + 1] <= '9' {
                float = true;
                let ghost dot = j;
                j = j + 1;
                while j < len && '0' <= line[j] && line[j] <= '9'
                    invariant
                        i < j <= len,
                        dot < j,
                        len == line.len(),
                        forall|k: int| i <= k < j ==> (is_digit(#[trigger] line@[k]) || line@[k] == '.'),
                        digits_end(line@, j as int) == digits_end(line@, dot + 1),
                    decreases len - j,
                {
                    j = j + 1;
                }
            }
            let content = text_of(line, i, j);
            let kind = if float {
                TokenType::FloatLiteral
            } else {
                TokenType::IntLiteral
            };
            let t = Token { token_type: kind, content, position: pos };
            proof {
                lemma_tokens_push(before, t);
            }
            toks.push(t);
            i = j;
        } else if ('a' <= c && c <= 'z') || ('A' <= c && c <= 'Z') || c == '_' {
            let mut j: usize = i + 1;
            while j < len && (('a' <= line[j] && line[j] <= 'z') || ('A' <= line[j] && line[j] <= 'Z')
                || line[j] == '_' || ('0' <= line[j] && line[j] <= '9'))
                invariant
                    i < j <= len,
                    len == line.len(),
                    forall|k: int| i <= k < j ==> is_word_char(#[trigger] line@[k]),
                    word_end(line@, j as int) == word_end(line@, i + 1),
                decreases len - j,
            {
                j = j + 1;
            }
            let content = text_of(line, i, j);
            let kind = word_kind(&content);
            let t = Token { token_type: kind, content, position: pos };
            proof {
                lemma_tokens_push(before, t);
            }
            toks.push(t);
            i = j;
        } else {
            let mut found = false;
            if i + 1 < len {
                let two = text_of(line, i, i + 2);
                if get_operand(two.as_str()).is_some() {
                    let t = Token { token_type: TokenType::Operator, content: two, position: pos };
                    proof {
                        lemma_tokens_push(before, t);
                    }
                    toks.push(t);
                    i = i + 2;
                    found = true;
                } else if same_text(two.as_str(), "..") {
                    let t = Token { token_type: TokenType::Symbol, content: two, position: pos };
                    proof {
                        lemma_tokens_push(before, t);
                    }
                    toks.push(t);
                    i = i + 2;
                    found = true;
                }
            }
            if !found {
                let one = text_of(line, i, i + 1);
                if get_operand(one.as_str()).is_some() && !same_text(one.as_str(), "!") {
                    let t = Token { token_type: TokenType::Operator, content: one, position: pos };
                    proof {
                        lemma_tokens_push(before, t);
                    }
                    toks.push(t);
                } else if symbol_text(one.as_str()) {
                    let t = Token { token_type: TokenType::Symbol, content: one, position: pos };
                    proof {
                        lemma_tokens_push(before, t);
                    }
                    toks.push(t);
                } else {
                    return Err(ParserError::new_pos(ErrorKind::InvalidCharacter, pos, "invalid character"));
                }
                i = i + 1;
            }
        }
    }
    Ok(toks)
}

fn symbol_text(s: &str) -> (r: bool)
    ensures
        r == is_symbol_text(s@),
{
    same_text(s, "..") || same_text(s, ":") || same_text(s, ",") || same_text(s, "!") || same_text(s, "=")
        || same_text(s, "(") || same_text(s, ")") || same_text(s, "[") || same_text(s, "]") || same_text(s, ".")
}

/// The models of the token lists of the enclosing regions.
pub open spec fn parents_view(ps: Seq<Vec<Token>>) -> Seq<Seq<TokenV>> {
    Seq::new(ps.len() as nat, |q: int| tokens_view(ps[q]@))
}

proof fn lemma_tokens_concat(a: Seq<Token>, b: Seq<Token>)
    ensures
        tokens_view(a + b) == tokens_view(a) + tokens_view(b),
{
    lemma_tokens_view(a);
    lemma_tokens_view(b);
    lemma_tokens_view(a + b);
    assert forall|k: int| 0 <= k < (a + b).len() implies #[trigger] tokens_view(a + b)[k] == (tokens_view(a) + tokens_view(b))[k] by {
        if k < a.len() {
            assert((a + b)[k] == a[k]);
        } else {
            assert((a + b)[k] == b[k - a.len()]);
        }
    }
    assert(tokens_view(a + b) =~= tokens_view(a) + tokens_view(b));
}

/// Whether an error kind is one that the lexer reports.
pub open spec fn is_lex_error(k: ErrorKind) -> bool {
    k == ErrorKind::InvalidCharacter || k == ErrorKind::UnterminatedString || k == ErrorKind::BadIndent
}

/// Lexes source text into a root `Block` token whose children are the
/// top-level lines, each ended by an `EOL` token; a line that opens an
/// indented region is followed by a `Block` token holding that region.
/// A tab counts as `tab_width` spaces of indentation.
pub fn lex(source: &str, tab_width: u32) -> (r: Result<Token, ParserError>)
    ensures
        r matches Ok(root) ==> (root.token_type matches TokenType::Block(c) && tokens_in(c@, lines_of(source@))),
        r matches Err(e) ==> is_lex_error(e.kind) && (e.position matches Some(p) && pos_in(p, lines_of(source@))),
        match lex_spec(source@, tab_width) {
            Ok(v) => r matches Ok(root) && root@ == TokenV {
                kind: KindV::Block(v),
                content: Seq::empty(),
                position: Position { line: 1, col: 1 },
            },
            Err(e) => r matches Err(x) && x.kind == e.0 && x.position == e.1,
        },
{
    let chars = chars_of(source);
    let lines = split_lines(&chars);
    let ghost ls = lines_of(source@);
    let mut cur: Vec<Token> = Vec::new();
    let mut parents: Vec<Vec<Token>> = Vec::new();
    let mut levels: Vec<usize> = Vec::new();
    let mut k: usize = 0;
    let ghost init: LexState = lex_init();
    proof {
        assert(tokens_view(cur@) =~= Seq::<TokenV>::empty());
        assert(parents_view(parents@) =~= Seq::<Seq<TokenV>>::empty());
        assert(levels@ =~= Seq::<usize>::empty());
    }
    while k < lines.len()
        invariant
            lex_lines(ls, k as int, tab_width, (tokens_view(cur@), parents_view(parents@), levels@)) == lex_lines(
                ls,
                0,
                tab_width,
                init,
            ),
            init == lex_init(),
            ls == lines_of(source@),
            chars@ == source@,
            lines.len() == ls.len(),
            forall|q: int| 0 <= q < lines.len() ==> #[trigger] lines@[q]@ == ls[q],
            k <= lines.len(),
            levels.len() == 0 ==> parents.len() == 0 && cur.len() == 0,
            levels.len() > 0 ==> levels.len() == parents.len() + 1 && cur.len() > 0,
            tokens_in(cur@, ls),
            forall|q: int| 0 <= q < parents.len() ==> #[trigger] tokens_in(parents@[q]@, ls),
            forall|q: int| 0 <= q < parents.len() ==> #[trigger] parents@[q].len() > 0,
        decreases lines.len() - k,
    {
        let line = &lines[k];
        let ghost st: LexState = (tokens_view(cur@), parents_view(parents@), levels@);
        let mut j: usize = 0;
        let mut indent: usize = 0;
        while j < line.len() && (line[j] == ' ' || line[j] == '\t' || line[j] == '\r')
            invariant
                j <= line.len(),
                lead(line@, tab_width, j as int, indent) == lead(line@, tab_width, 0, 0),
            decreases line.len() - j,
        {
            if line[j] == '\t' {
                indent = indent.saturating_add(tab_width as usize);
            } else if line[j] == ' ' {
                indent = indent.saturating_add(1);
            }
            j = j + 1;
        }
        assert(lead(line@, tab_width, 0, 0) == (j as int, indent));
        if j < line.len() {
            let pos = Position { line: k + 1, col: j + 1 };
            assert(pos_in(pos, ls));
            if levels.len() == 0 {
                levels.push(indent);
                assert(levels@ =~= seq![indent]);
            } else if indent > levels[levels.len() - 1] {
                let ghost pv = parents_view(parents@);
                let ghost cv = tokens_view(cur@);
                parents.push(cur);
                cur = Vec::new();
                levels.push(indent);
                assert(parents_view(parents@) =~= pv.push(cv));
                assert(tokens_view(cur@) =~= Seq::<TokenV>::empty());
            } else {
                while levels.len() > 1 && indent < levels[levels.len() - 1]
                    invariant
                        close_to((tokens_view(cur@), parents_view(parents@), levels@), indent) == close_to(st, indent),
                        levels.len() == parents.len() + 1,
                        cur.len() > 0,
                        tokens_in(cur@, ls),
                        forall|q: int| 0 <= q < parents.len() ==> #[trigger] tokens_in(parents@[q]@, ls),
            forall|q: int| 0 <= q < parents.len() ==> #[trigger] parents@[q].len() > 0,
                    decreases levels.len(),
                {
                    let ghost pv = parents_view(parents@);
                    let ghost lv = levels@;
                    let child = cur;
                    cur = parents.pop().unwrap();
                    levels.pop();
                    let cpos = child[0].position;
                    let ghost cv = child@;
                    let ghost before = cur@;
                    let blk = Token { token_type: TokenType::Block(child), content: String::new(), position: cpos };
                    proof {
                        lemma_tokens_view(cv);
                        assert(blk@ == block_of(tokens_view(cv)));
                        lemma_tokens_push(before, blk);
                    }
                    cur.push(blk);
                    proof {
                        assert(pos_in(cv[0].position, ls));
                        lemma_tokens_in_push(before, cur@.last(), ls);
                        assert(cur@ =~= before.push(cur@.last()));
                        assert(parents_view(parents@) =~= pv.subrange(0, pv.len() - 1));
                        assert(levels@ =~= lv.subrange(0, lv.len() - 1));
                        assert(tokens_view(before) == pv.last());
                    }
                }
                assert(close_to((tokens_view(cur@), parents_view(parents@), levels@), indent) == (
                    tokens_view(cur@),
                    parents_view(parents@),
                    levels@,
                ));
                if indent != levels[levels.len() - 1] {
                    assert(open_step(st, indent, pos) is Err);
                    assert(ls[k as int] == line@);
                    assert(line_step(ls[k as int], k as int, tab_width, st) == Err::<LexState, (ErrorKind, Option<Position>)>(
                        (ErrorKind::BadIndent, Some(pos)),
                    ));
                    assert(lex_lines(ls, k as int, tab_width, st) == Err::<LexState, (ErrorKind, Option<Position>)>(
                        (ErrorKind::BadIndent, Some(pos)),
                    ));


                    return Err(ParserError::new_pos(ErrorKind::BadIndent, pos, "indentation matches no enclosing level"));
                }
            }
            assert(open_step(st, indent, pos) == Ok::<LexState, (ErrorKind, Option<Position>)>(
                (tokens_view(cur@), parents_view(parents@), levels@),
            ));
            let scanned = scan_line(line, j, k + 1);
            match scanned {
                Err(e) => {
                    assert(ls[k as int] == line@);
                    assert(line_step(ls[k as int], k as int, tab_width, st) == Err::<LexState, (ErrorKind, Option<Position>)>(
                        (e.kind, e.position),
                    ));
                    assert(lex_lines(ls, k as int, tab_width, st) == Err::<LexState, (ErrorKind, Option<Position>)>(
                        (e.kind, e.position),
                    ));
                    return Err(e);
                },
                Ok(mut toks) => {
                    let ghost before = cur@;
                    let ghost tv = toks@;
                    assert forall|q: int| 0 <= q < tv.len() implies token_in(#[trigger] tv[q], ls) by {
                        assert(token_fits_line(tv[q], line@, (k + 1) as usize));
                    }
                    cur.append(&mut toks);
                    let ghost mid = cur@;
                    let eol = Position { line: k + 1, col: line.len() };
                    let et = Token { token_type: TokenType::EOL, content: String::from_str("\n"), position: eol };
                    proof {
                        assert(mid =~= before + tv);
                        lemma_tokens_concat(before, tv);
                        lemma_tokens_push(mid, et);
                    }
                    cur.push(et);
                    proof {
                        lemma_tokens_in_concat(before, tv, ls);
                        assert(mid =~= before + tv);
                        assert(token_in(cur@.last(), ls));
                        lemma_tokens_in_push(mid, cur@.last(), ls);
                        assert(cur@ =~= mid.push(cur@.last()));
                    }
                },
            }
        }
        k = k + 1;
    }
    let ghost st_end: LexState = (tokens_view(cur@), parents_view(parents@), levels@);
    while parents.len() > 0
        invariant
            close_all(tokens_view(cur@), parents_view(parents@)) == close_all(st_end.0, st_end.1),
            levels.len() == 0 ==> parents.len() == 0,
            parents.len() > 0 ==> cur.len() > 0,
            tokens_in(cur@, ls),
            forall|q: int| 0 <= q < parents.len() ==> #[trigger] tokens_in(parents@[q]@, ls),
            forall|q: int| 0 <= q < parents.len() ==> #[trigger] parents@[q].len() > 0,
        decreases parents.len(),
    {
        let ghost pv = parents_view(parents@);
        let child = cur;
        cur = parents.pop().unwrap();
        let cpos = child[0].position;
        let ghost cv = child@;
        let ghost before = cur@;
        let blk = Token { token_type: TokenType::Block(child), content: String::new(), position: cpos };
        proof {
            lemma_tokens_view(cv);
            assert(blk@ == block_of(tokens_view(cv)));
            lemma_tokens_push(before, blk);
        }
        cur.push(blk);
        proof {
            assert(parents_view(parents@) =~= pv.subrange(0, pv.len() - 1));
            assert(tokens_view(before) == pv.last());
            assert(pos_in(cv[0].position, ls));
            lemma_tokens_in_push(before, cur@.last(), ls);
            assert(cur@ =~= before.push(cur@.last()));
        }
    }
    let root = Token { token_type: TokenType::Block(cur), content: String::new(), position: Position { line: 1, col: 1 } };
    assert(root@.content =~= Seq::<char>::empty());
    Ok(root)
}

/// The kind of a scanned word.
fn word_kind(w: &String) -> (r: TokenType)
    ensures
        r is Keyword ==> w@ == "fun"@,
        r is Type ==> type_named(w@) is Some,
        r is BoolLiteral ==> w@ == "true"@ || w@ == "false"@,
        r is Operator ==> operand_named(w@) is Some,
        r is Identifier ==> !is_reserved(w@),
        r is Keyword || r is Type || r is BoolLiteral || r is Operator || r is Identifier,
        kind_view(r) == kind_of_word(w@),
{
    let s = w.as_str();
    if same_text(s, "fun") {
        TokenType::Keyword
    } else if same_text(s, "true") || same_text(s, "false") {
        TokenType::BoolLiteral
    } else if get_operand(s).is_some() {
        TokenType::Operator
    } else if get_type(s).is_some() {
        TokenType::Type
    } else {
        TokenType::Identifier
    }
}

} // verus!
