//! The tokenizer engine: an ordered table of templates and the scan loop.
//!
//! The order of the table is the disambiguation rule: at each position the
//! first template whose pattern matches there, with a non-empty match, wins.
use vstd::prelude::*;
use vstd::string::*;
use vstd::utf8::*;

use crate::matcher::{compile, find, regex_compiles, regex_find, well_placed, CompiledPattern};
use crate::operators::{get_operator_regex, operator_pattern};
use crate::token::{Token, TokenType};

verus! {

broadcast use {encode_utf8_valid_utf8, encode_utf8_decode_utf8};

/// The template table, in priority order: each token kind with the pattern
/// that recognises it at the start of the remaining text. Every pattern is
/// anchored with `\A`, so a match can only begin where the scan stands.
pub open spec fn template_table() -> Seq<(TokenType, Seq<char>)> {
    seq![
        (TokenType::Whitespace, "\\A\\s\\s*(\\b|\\B|$)"@),
        (TokenType::LineComment, "\\A(?m:#.*$)"@),
        (TokenType::BlockComment, "\\A/\\*(.|\\s)*\\*/"@),
        (TokenType::StringLiteral, "\\A(\"(.|\\s)*\")|(\\A'(.|\\s)*')"@),
        (TokenType::Identifier, "\\A[a-zA-Z_]\\w*\\b"@),
        (TokenType::Number, "\\A[0-9][0-9]*[.]?[0-9]*\\b"@),
        (TokenType::HexNumber, "\\A[0]x[0-9A-Fa-f][0-9A-Fa-f]*\\b"@),
        (TokenType::EndStatement, "\\A;"@),
        (TokenType::Operator, operator_pattern()),
    ]
}

/// Why a text could not be cut into tokens.
#[derive(Clone, Copy, PartialEq, Eq, Structural, Debug)]
pub enum LexError {
    /// No template matches at `position` (a character index into the
    /// input), where `character` stands.
    UnrecognizedCharacter { position: usize, character: char },
    /// The pattern of `kind` matched, but not at `position`, the start of
    /// the remaining text: the template table itself is malformed.
    UnanchoredMatch { kind: TokenType, position: usize },
}

/// Why a lexer could not be built: the pattern of `kind` was refused.
#[derive(Clone, Copy, PartialEq, Eq, Structural, Debug)]
pub enum BuildError {
    InvalidPattern { kind: TokenType },
}

/// How the pattern of one token kind fares on a whole text.
#[derive(Clone, Copy, PartialEq, Eq, Structural, Debug)]
pub enum MatchType {
    /// It matches the whole text.
    Match,
    /// It matches at the start, the first so many bytes only.
    WrongLen(usize),
    /// It does not match at the start.
    NoMatch,
    /// The lexer has no template of that kind.
    NoRegex,
}

/// The pattern of the last template of `kind` in `pats`, if any.
pub open spec fn last_pattern(pats: Seq<(TokenType, Seq<char>)>, kind: TokenType) -> Option<
    Seq<char>,
>
    decreases pats.len(),
{
    if pats.len() == 0 {
        None
    } else if pats.last().0 == kind {
        Some(pats.last().1)
    } else {
        last_pattern(pats.drop_last(), kind)
    }
}

/// How a match result `m` on a text of `nbytes` bytes is classified.
pub open spec fn classify(m: Option<(usize, usize)>, nbytes: int) -> MatchType {
    match m {
        Some((start, end)) => {
            if start != 0 {
                MatchType::NoMatch
            } else if end == nbytes {
                MatchType::Match
            } else {
                MatchType::WrongLen(end)
            }
        },
        None => MatchType::NoMatch,
    }
}

/// Classifies the match result `m` on a text of `nbytes` bytes.
pub fn classify_match(m: Option<(usize, usize)>, nbytes: usize) -> (r: MatchType)
    ensures
        r == classify(m, nbytes as int),
{
    match m {
        Some((start, end)) => {
            if start != 0 {
                MatchType::NoMatch
            } else if end == nbytes {
                MatchType::Match
            } else {
                MatchType::WrongLen(end)
            }
        },
        None => MatchType::NoMatch,
    }
}

/// The outcome of trying the templates, in order, at one position.
#[derive(Clone, Copy, PartialEq, Eq, Structural, Debug)]
pub enum Selection {
    /// Template `kind` matched the first `end` bytes, `end > 0`.
    Emit { kind: TokenType, end: usize },
    /// Template `kind` reported a match that does not start at the position.
    Unanchored { kind: TokenType },
    /// No template matched with a non-empty match.
    NoMatch,
}

/// What one template's match result `m` decides: `Some` selection, or
/// `None` to go on with the next template. A match elsewhere than at the
/// start is a fault of the template; an empty match at the start counts as
/// no match.
pub open spec fn step_of(kind: TokenType, m: Option<(usize, usize)>) -> Option<Selection> {
    match m {
        Some((start, end)) => {
            if start != 0 {
                Some(Selection::Unanchored { kind })
            } else if end > 0 {
                Some(Selection::Emit { kind, end })
            } else {
                None
            }
        },
        None => None,
    }
}

/// Decides what the match result `m` of the template of `kind` means for
/// the scan.
pub fn judge_match(kind: TokenType, m: Option<(usize, usize)>) -> (r: Option<Selection>)
    ensures
        r == step_of(kind, m),
{
    match m {
        Some((start, end)) => {
            if start != 0 {
                Some(Selection::Unanchored { kind })
            } else if end > 0 {
                Some(Selection::Emit { kind, end })
            } else {
                None
            }
        },
        None => None,
    }
}

/// The result of trying templates `i..` of `pats` on `hay`: the first that
/// matches at offset 0 with a non-empty match, or the first that matches
/// elsewhere, whichever comes first.
pub open spec fn selection(pats: Seq<(TokenType, Seq<char>)>, hay: Seq<char>, i: int) -> Selection
    decreases pats.len() - i,
{
    if i < 0 || i >= pats.len() {
        Selection::NoMatch
    } else {
        match step_of(pats[i].0, regex_find(pats[i].1, hay)) {
            Some(sel) => sel,
            None => selection(pats, hay, i + 1),
        }
    }
}

/// The characters of `s` whose UTF-8 encoding is its first `nbytes` bytes.
pub open spec fn byte_prefix(s: Seq<char>, nbytes: int) -> Seq<char> {
    decode_utf8(encode_utf8(s).subrange(0, nbytes))
}

/// The characters of `s` after its first `nbytes` bytes of UTF-8.
pub open spec fn byte_suffix(s: Seq<char>, nbytes: int) -> Seq<char> {
    decode_utf8(encode_utf8(s).subrange(nbytes, encode_utf8(s).len() as int))
}

/// `prefix` put before the tokens of `r`; an error is kept as it is.
pub open spec fn prepend(
    prefix: Seq<(TokenType, Seq<char>)>,
    r: Result<Seq<(TokenType, Seq<char>)>, LexError>,
) -> Result<Seq<(TokenType, Seq<char>)>, LexError> {
    match r {
        Ok(toks) => Ok(prefix + toks),
        Err(e) => Err(e),
    }
}

/// The tokens of `s` under the templates `pats`, where `s` starts at
/// character `offset` of the whole input.
///
/// A chosen match always lies within `s` on character boundaries, as the
/// `regex` crate documents; the test of `well_placed` only keeps this
/// definition total.
pub open spec fn lex_from(pats: Seq<(TokenType, Seq<char>)>, s: Seq<char>, offset: nat) -> Result<
    Seq<(TokenType, Seq<char>)>,
    LexError,
>
    decreases s.len(),
{
    if s.len() == 0 {
        Ok(seq![])
    } else {
        match selection(pats, s, 0) {
            Selection::Emit { kind, end } => {
                let text = byte_prefix(s, end as int);
                if well_placed(Some((0usize, end)), s) && 0 < text.len() <= s.len() {
                    prepend(
                        seq![(kind, text)],
                        lex_from(pats, s.skip(text.len() as int), offset + text.len()),
                    )
                } else {
                    Err(LexError::UnrecognizedCharacter { position: offset as usize, character: s[0] })
                }
            },
            Selection::Unanchored { kind } => Err(
                LexError::UnanchoredMatch { kind, position: offset as usize },
            ),
            Selection::NoMatch => Err(
                LexError::UnrecognizedCharacter { position: offset as usize, character: s[0] },
            ),
        }
    }
}

/// The tokens of a whole input `s` under the templates `pats`.
pub open spec fn lex(pats: Seq<(TokenType, Seq<char>)>, s: Seq<char>) -> Result<
    Seq<(TokenType, Seq<char>)>,
    LexError,
> {
    lex_from(pats, s, 0)
}

/// The texts of `toks`, concatenated in order.
pub open spec fn concat_texts(toks: Seq<(TokenType, Seq<char>)>) -> Seq<char>
    decreases toks.len(),
{
    if toks.len() == 0 {
        seq![]
    } else {
        toks[0].1 + concat_texts(toks.drop_first())
    }
}

/// The model of a result of `tokenize`.
pub open spec fn outcome(r: Result<Vec<Token>, LexError>) -> Result<
    Seq<(TokenType, Seq<char>)>,
    LexError,
> {
    match r {
        Ok(v) => Ok(v@.map_values(|t: Token| t@)),
        Err(e) => Err(e),
    }
}

/// Splitting a text at a character boundary `end > 0` of its UTF-8 bytes
/// gives a non-empty prefix and the rest.
proof fn lemma_split_at_boundary(s: Seq<char>, end: int)
    requires
        0 < end <= encode_utf8(s).len(),
        is_char_boundary(encode_utf8(s), end),
    ensures
        byte_prefix(s, end).len() > 0,
        s == byte_prefix(s, end) + byte_suffix(s, end),
        byte_suffix(s, end) == s.skip(byte_prefix(s, end).len() as int),
{
    let b = encode_utf8(s);
    decode_utf8_split(b, end);
    valid_utf8_split(b, end);
    let p = byte_prefix(s, end);
    decode_utf8_encode_utf8(b.subrange(0, end));
    if p.len() == 0 {
        assert(encode_utf8(p) =~= Seq::<u8>::empty());
        assert(b.subrange(0, end).len() == end);
    }
    assert(s =~= p + byte_suffix(s, end));
    assert(byte_suffix(s, end) =~= s.skip(p.len() as int));
}

/// The pattern sources of the table, in order.
fn template_sources() -> (r: Vec<(TokenType, String)>)
    ensures
        r@.map_values(|t: (TokenType, String)| (t.0, t.1@)) == template_table(),
{
    let r: Vec<(TokenType, String)> = vec![
        (TokenType::Whitespace, String::from_str("\\A\\s\\s*(\\b|\\B|$)")),
        (TokenType::LineComment, String::from_str("\\A(?m:#.*$)")),
        (TokenType::BlockComment, String::from_str("\\A/\\*(.|\\s)*\\*/")),
        (TokenType::StringLiteral, String::from_str("\\A(\"(.|\\s)*\")|(\\A'(.|\\s)*')")),
        (TokenType::Identifier, String::from_str("\\A[a-zA-Z_]\\w*\\b")),
        (TokenType::Number, String::from_str("\\A[0-9][0-9]*[.]?[0-9]*\\b")),
        (TokenType::HexNumber, String::from_str("\\A[0]x[0-9A-Fa-f][0-9A-Fa-f]*\\b")),
        (TokenType::EndStatement, String::from_str("\\A;")),
        (TokenType::Operator, get_operator_regex()),
    ];
    assert(r@.map_values(|t: (TokenType, String)| (t.0, t.1@)) =~= template_table());
    r
}

struct TokenTemplate {
    token_type: TokenType,
    pattern: CompiledPattern,
}

/// A tokenizer: the template table, compiled once and read by every scan.
pub struct Lexer {
    token_templates: Vec<TokenTemplate>,
}

impl Lexer {
    /// The templates of this lexer, in priority order, as kinds and
    /// pattern texts.
    pub closed spec fn patterns(&self) -> Seq<(TokenType, Seq<char>)> {
        self.token_templates@.map_values(|t: TokenTemplate| (t.token_type, t.pattern.source()))
    }

    /// Builds the lexer with the template table compiled. It fails, naming
    /// the kind, at the first template whose pattern `regex` refuses.
    pub fn new() -> (r: Result<Lexer, BuildError>)
        ensures
            r is Ok <==> forall|i: int|
                0 <= i < template_table().len() ==> regex_compiles(#[trigger] template_table()[i].1),
            r matches Ok(lx) ==> lx.patterns() == template_table(),
            r matches Err(BuildError::InvalidPattern { kind }) ==> exists|j: int|
                0 <= j < template_table().len() && !regex_compiles(#[trigger] template_table()[j].1)
                    && template_table()[j].0 == kind && forall|k: int|
                    0 <= k < j ==> regex_compiles(#[trigger] template_table()[k].1),
    {
        let mut result = Lexer { token_templates: Vec::new() };
        assert(result.patterns() =~= Seq::<(TokenType, Seq<char>)>::empty());
        match result.setup_templates() {
            Ok(()) => Ok(result),
            Err(e) => Err(e),
        }
    }

    /// Appends the template table, compiled, after the templates already
    /// held. It stops at the first pattern that `regex` refuses.
    fn setup_templates(&mut self) -> (r: Result<(), BuildError>)
        ensures
            r is Ok <==> forall|i: int|
                0 <= i < template_table().len() ==> regex_compiles(#[trigger] template_table()[i].1),
            r is Ok ==> final(self).patterns() == old(self).patterns() + template_table(),
            r matches Err(BuildError::InvalidPattern { kind }) ==> exists|j: int|
                0 <= j < template_table().len() && !regex_compiles(#[trigger] template_table()[j].1)
                    && template_table()[j].0 == kind && forall|k: int|
                    0 <= k < j ==> regex_compiles(#[trigger] template_table()[k].1),
    {
        let sources = template_sources();
        let ghost table = template_table();
        let mut i: usize = 0;
        while i < sources.len()
            invariant
                sources@.map_values(|t: (TokenType, String)| (t.0, t.1@)) == table,
                table == template_table(),
                i <= sources.len(),
                self.patterns() == old(self).patterns() + table.take(i as int),
                forall|k: int| 0 <= k < i ==> regex_compiles(#[trigger] table[k].1),
            decreases sources.len() - i,
        {
            let kind = sources[i].0;
            let pattern = sources[i].1.clone();
            assert(table[i as int] == (kind, pattern@));
            match self.add_token_template(kind, pattern) {
                Ok(()) => {},
                Err(e) => {
                    assert(!regex_compiles(template_table()[i as int].1));
                    return Err(e);
                },
            }
            assert(table.take(i + 1) =~= table.take(i as int).push(table[i as int]));
            assert(old(self).patterns() + table.take(i + 1) =~= (old(self).patterns() + table.take(
                i as int,
            )).push(table[i as int]));
            i = i + 1;
        }
        assert(table.take(i as int) =~= table);
        Ok(())
    }

    /// Compiles `reg` and appends it to the table as the template of
    /// `token_type`; on failure the table is left as it was.
    fn add_token_template(&mut self, token_type: TokenType, reg: String) -> (r: Result<(), BuildError>)
        ensures
            r is Ok <==> regex_compiles(reg@),
            r is Ok ==> final(self).patterns() == old(self).patterns().push((token_type, reg@)),
            r is Err ==> r == Err::<(), BuildError>(BuildError::InvalidPattern { kind: token_type }),
            r is Err ==> final(self).patterns() == old(self).patterns(),
    {
        match compile(reg) {
            Ok(pattern) => {
                self.token_templates.push(TokenTemplate { token_type, pattern });
                assert(self.patterns() =~= old(self).patterns().push((token_type, reg@)));
                Ok(())
            },
            Err(_) => Err(BuildError::InvalidPattern { kind: token_type }),
        }
    }
    /// Tries the templates in order at the start of `hay`.
    fn select(&self, hay: &str) -> (r: Selection)
        ensures
            r == selection(self.patterns(), hay@, 0),
            r matches Selection::Emit { end, .. } ==> end > 0 && well_placed(
                Some((0usize, end)),
                hay@,
            ),
    {
        let mut i: usize = 0;
        while i < self.token_templates.len()
            invariant
                i <= self.token_templates.len(),
                selection(self.patterns(), hay@, 0) == selection(self.patterns(), hay@, i as int),
            decreases self.token_templates.len() - i,
        {
            let t = &self.token_templates[i];
            assert(self.patterns()[i as int] == (t.token_type, t.pattern.source()));
            let m = find(&t.pattern, hay);
            match judge_match(t.token_type, m) {
                Some(sel) => {
                    return sel;
                },
                None => {},
            }
            i = i + 1;
        }
        Selection::NoMatch
    }

    /// Cuts `code` into tokens, left to right, taking at each position the
    /// first template that matches there. The scan stops at the first
    /// position where no template matches, with no tokens returned.
    pub fn tokenize(&self, code: String) -> (r: Result<Vec<Token>, LexError>)
        ensures
            outcome(r) == lex(self.patterns(), code@),
            r matches Ok(toks) ==> concat_texts(toks@.map_values(|t: Token| t@)) == code@,
            r matches Ok(toks) ==> forall|i: int|
                0 <= i < toks@.len() ==> (#[trigger] toks@[i])@.1.len() > 0,
    {
        let ghost pats = self.patterns();
        let total = code.as_str().unicode_len();
        let mut rest: &str = code.as_str();
        let mut pos: usize = 0;
        let mut tokens: Vec<Token> = Vec::new();
        while !rest.is_empty()
            invariant
                pats == self.patterns(),
                total == code@.len(),
                pos + rest@.len() == code@.len(),
                lex(pats, code@) == prepend(
                    tokens@.map_values(|t: Token| t@),
                    lex_from(pats, rest@, pos as nat),
                ),
            decreases rest@.len(),
        {
            let ghost toks = tokens@.map_values(|t: Token| t@);
            match self.select(rest) {
                Selection::Emit { kind, end } => {
                    proof {
                        lemma_split_at_boundary(rest@, end as int);
                    }
                    let (head, tail) = rest.split_at(end);
                    proof {
                        assert(encode_utf8(head@) == encode_utf8(rest@).subrange(0, end as int));
                        assert(decode_utf8(encode_utf8(head@)) == head@);
                        assert(encode_utf8(tail@) == encode_utf8(rest@).subrange(
                            end as int,
                            encode_utf8(rest@).len() as int,
                        ));
                        assert(decode_utf8(encode_utf8(tail@)) == tail@);
                    }
                    let n = head.unicode_len();
                    let token = Token::new(head.to_owned(), kind);
                    tokens.push(token);
                    proof {
                        let rest_model = lex_from(pats, tail@, (pos + n) as nat);
                        assert(tokens@.map_values(|t: Token| t@) =~= toks.push((kind, head@)));
                        match rest_model {
                            Ok(more) => {
                                assert(toks + (seq![(kind, head@)] + more) =~= toks.push(
                                    (kind, head@),
                                ) + more);
                            },
                            Err(_) => {},
                        }
                    }
                    rest = tail;
                    pos = pos + n;
                },
                Selection::Unanchored { kind } => {
                    return Err(LexError::UnanchoredMatch { kind, position: pos });
                },
                Selection::NoMatch => {
                    let character = rest.get_char(0);
                    return Err(LexError::UnrecognizedCharacter { position: pos, character });
                },
            }
        }
        proof {
            assert(tokens@.map_values(|t: Token| t@) + seq![] =~= tokens@.map_values(
                |t: Token| t@,
            ));
            lemma_round_trip(pats, code@);
            lemma_progress(pats, code@);
            let toks = tokens@.map_values(|t: Token| t@);
            assert forall|i: int| 0 <= i < tokens@.len() implies (#[trigger] tokens@[i])@.1.len()
                > 0 by {
                assert(toks[i] == tokens@[i]@);
            }
        }
        Ok(tokens)
    }

    /// How the pattern of `token_type` (the last template of that kind)
    /// fares on the whole of `string`.
    pub fn matches_token(&self, token_type: TokenType, string: &String) -> (r: MatchType)
        ensures
            r == match last_pattern(self.patterns(), token_type) {
                None => MatchType::NoRegex,
                Some(p) => classify(regex_find(p, string@), encode_utf8(string@).len() as int),
            },
            r matches MatchType::WrongLen(n) ==> n < encode_utf8(string@).len(),
    {
        let ghost pats = self.patterns();
        let mut i: usize = self.token_templates.len();
        assert(pats.take(i as int) =~= pats);
        while i > 0
            invariant
                pats == self.patterns(),
                i <= self.token_templates.len(),
                last_pattern(pats, token_type) == last_pattern(pats.take(i as int), token_type),
            decreases i,
        {
            let t = &self.token_templates[i - 1];
            assert(pats.take(i as int).drop_last() =~= pats.take(i - 1));
            assert(pats.take(i as int).last() == (t.token_type, t.pattern.source()));
            if t.token_type == token_type {
                let text = string.as_str();
                let m = find(&t.pattern, text);
                assert(last_pattern(pats.take(i as int), token_type) == Some(t.pattern.source()));
                return classify_match(m, text.as_bytes().len());
            }
            i = i - 1;
        }
        assert(pats.take(0) =~= Seq::<(TokenType, Seq<char>)>::empty());
        MatchType::NoRegex
    }
}

/// Every token of a successful scan from `offset` is non-empty, and the
/// texts of the tokens, in order, make up `s`.
proof fn lemma_lex_from_covers(pats: Seq<(TokenType, Seq<char>)>, s: Seq<char>, offset: nat)
    ensures
        lex_from(pats, s, offset) matches Ok(toks) ==> concat_texts(toks) == s && forall|i: int|
            0 <= i < toks.len() ==> (#[trigger] toks[i]).1.len() > 0,
    decreases s.len(),
{
    if s.len() > 0 {
        match selection(pats, s, 0) {
            Selection::Emit { kind, end } => {
                let text = byte_prefix(s, end as int);
                if well_placed(Some((0usize, end)), s) && 0 < text.len() <= s.len() {
                    lemma_split_at_boundary(s, end as int);
                    let tail = s.skip(text.len() as int);
                    lemma_lex_from_covers(pats, tail, offset + text.len());
                    match lex_from(pats, tail, offset + text.len()) {
                        Ok(more) => {
                            let toks = seq![(kind, text)] + more;
                            assert(toks.drop_first() =~= more);
                            assert(toks[0] == (kind, text));
                            assert forall|i: int| 0 <= i < toks.len() implies (
                            #[trigger] toks[i]).1.len() > 0 by {
                                if i > 0 {
                                    assert(toks[i] == more[i - 1]);
                                }
                            }
                        },
                        Err(_) => {},
                    }
                }
            },
            _ => {},
        }
    }
}

/// Round trip: when a scan succeeds, the texts of its tokens, concatenated
/// in order, give back the input exactly.
pub proof fn lemma_round_trip(pats: Seq<(TokenType, Seq<char>)>, s: Seq<char>)
    ensures
        lex(pats, s) matches Ok(toks) ==> concat_texts(toks) == s,
{
    lemma_lex_from_covers(pats, s, 0);
}

/// Progress: every token of a successful scan has a non-empty text, so each
/// step consumes at least one character of what remains.
pub proof fn lemma_progress(pats: Seq<(TokenType, Seq<char>)>, s: Seq<char>)
    ensures
        lex(pats, s) matches Ok(toks) ==> forall|i: int|
            0 <= i < toks.len() ==> (#[trigger] toks[i]).1.len() > 0,
{
    lemma_lex_from_covers(pats, s, 0);
}

/// A text at whose start no template decides anything (each pattern either
/// finds no match or only an empty one at the start) fails at its first
/// character, with no tokens.
pub proof fn lemma_unmatched_start_is_unrecognized(pats: Seq<(TokenType, Seq<char>)>, s: Seq<char>)
    requires
        s.len() > 0,
        forall|i: int|
            0 <= i < pats.len() ==> step_of(pats[i].0, #[trigger] regex_find(pats[i].1, s)) is None,
    ensures
        lex(pats, s) == Err::<Seq<(TokenType, Seq<char>)>, LexError>(
            LexError::UnrecognizedCharacter { position: 0, character: s[0] },
        ),
{
    lemma_no_step_selects_nothing(pats, s, 0);
}

proof fn lemma_no_step_selects_nothing(pats: Seq<(TokenType, Seq<char>)>, s: Seq<char>, i: int)
    requires
        0 <= i,
        forall|k: int|
            0 <= k < pats.len() ==> step_of(pats[k].0, #[trigger] regex_find(pats[k].1, s)) is None,
    ensures
        selection(pats, s, i) == Selection::NoMatch,
    decreases pats.len() - i,
{
    if i < pats.len() {
        assert(step_of(pats[i].0, regex_find(pats[i].1, s)) is None);
        lemma_no_step_selects_nothing(pats, s, i + 1);
    }
}

/// Reuse: a lexer keeps no state between scans (`tokenize` reads it
/// through a shared reference), so any two scans of one text under the same
/// templates give the same tokens or the same error.
pub proof fn lemma_reuse(
    pats: Seq<(TokenType, Seq<char>)>,
    s: Seq<char>,
    r1: Result<Vec<Token>, LexError>,
    r2: Result<Vec<Token>, LexError>,
)
    requires
        outcome(r1) == lex(pats, s),
        outcome(r2) == lex(pats, s),
    ensures
        outcome(r1) == outcome(r2),
{
}

} // verus!
