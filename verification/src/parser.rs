//! The grammar parser: consumes the token sequence exactly once, left to
//! right, with one token of structural lookahead, and produces an ordered
//! sequence of typed parts,
//! <https://urlpattern.spec.whatwg.org/#parse-a-pattern-string>.

use vstd::prelude::*;
use vstd::string::StringExecFns;

use crate::tokenizer::{tok_is_end, tokens_wf, tview, GToken, Token};
use crate::{Options, ParseError};

verus! {

/// A repetition marker attached to a part.
#[derive(Clone, Copy, Debug)]
pub enum Modifier {
    /// `?`
    Optional,
    /// `*`
    ZeroOrMore,
    /// `+`
    OneOrMore,
}

/// The single-character textual form of a modifier.
pub open spec fn mod_char(m: Modifier) -> char {
    match m {
        Modifier::Optional => '?',
        Modifier::ZeroOrMore => '*',
        Modifier::OneOrMore => '+',
    }
}

impl Modifier {
    /// The character the modifier renders to.
    pub fn as_char(&self) -> (c: char)
        ensures
            c == mod_char(*self),
    {
        match self {
            Modifier::Optional => '?',
            Modifier::ZeroOrMore => '*',
            Modifier::OneOrMore => '+',
        }
    }
}

/// The mathematical form of a part: payloads are character sequences.
#[verifier::ext_equal]
pub enum GPart {
    FixedText { value: Seq<char>, modifier: Option<Modifier> },
    RegExp {
        name: Seq<char>,
        value: Seq<char>,
        modifier: Option<Modifier>,
        prefix: Seq<char>,
        suffix: Seq<char>,
    },
    SegmentWildcard {
        name: Seq<char>,
        modifier: Option<Modifier>,
        prefix: Seq<char>,
        suffix: Seq<char>,
    },
    FullWildcard {
        name: Seq<char>,
        modifier: Option<Modifier>,
        prefix: Seq<char>,
        suffix: Seq<char>,
    },
}

/// One semantic unit of a parsed pattern,
/// <https://urlpattern.spec.whatwg.org/#part>.
pub enum Part {
    /// Literal text, optionally itself repeatable.
    FixedText { value: String, modifier: Option<Modifier> },
    /// A named placeholder matched by a caller-supplied regular-expression
    /// fragment.
    RegExp {
        name: String,
        value: String,
        modifier: Option<Modifier>,
        prefix: String,
        suffix: String,
    },
    /// A named placeholder matched by one-or-more characters excluding the
    /// delimiter.
    SegmentWildcard { name: String, modifier: Option<Modifier>, prefix: String, suffix: String },
    /// A named placeholder matched by any characters, unbounded.
    FullWildcard { name: String, modifier: Option<Modifier>, prefix: String, suffix: String },
}

impl View for Part {
    type V = GPart;

    open spec fn view(&self) -> GPart {
        match self {
            Part::FixedText { value, modifier } => GPart::FixedText {
                value: value@,
                modifier: *modifier,
            },
            Part::RegExp { name, value, modifier, prefix, suffix } => GPart::RegExp {
                name: name@,
                value: value@,
                modifier: *modifier,
                prefix: prefix@,
                suffix: suffix@,
            },
            Part::SegmentWildcard { name, modifier, prefix, suffix } => GPart::SegmentWildcard {
                name: name@,
                modifier: *modifier,
                prefix: prefix@,
                suffix: suffix@,
            },
            Part::FullWildcard { name, modifier, prefix, suffix } => GPart::FullWildcard {
                name: name@,
                modifier: *modifier,
                prefix: prefix@,
                suffix: suffix@,
            },
        }
    }
}

/// The views of a part sequence.
pub open spec fn pview(ps: Seq<Part>) -> Seq<GPart> {
    ps.map_values(|p: Part| p@)
}

/// The views of a name list.
pub open spec fn nview(ns: Seq<String>) -> Seq<Seq<char>> {
    ns.map_values(|s: String| s@)
}

/// The view of an optional identifier.
pub open spec fn onview(n: Option<String>) -> Option<Seq<char>> {
    match n {
        Some(s) => Some(s@),
        None => None,
    }
}

/// The mathematical form of a consumed regexp-or-wildcard token.
pub enum GRegexpOrWildcard {
    Absent,
    Asterisk,
    Regexp(Seq<char>),
}

/// A consumed regexp-or-wildcard token: a custom regular-expression group,
/// or a bare `*`.
pub enum RegexpOrWildcard {
    Asterisk,
    Regexp(String),
}

/// The view of an optionally consumed regexp-or-wildcard token.
pub open spec fn rwview(r: Option<RegexpOrWildcard>) -> GRegexpOrWildcard {
    match r {
        None => GRegexpOrWildcard::Absent,
        Some(RegexpOrWildcard::Asterisk) => GRegexpOrWildcard::Asterisk,
        Some(RegexpOrWildcard::Regexp(s)) => GRegexpOrWildcard::Regexp(s@),
    }
}

/// The parser's mutable state, abstractly: the pending fixed value, the
/// emitted parts, the names of the emitted placeholders, and the ordinal
/// for naming the next unnamed placeholder.
#[verifier::ext_equal]
pub struct PState {
    pub pending: Seq<char>,
    pub parts: Seq<GPart>,
    pub names: Seq<Seq<char>>,
    pub next_ordinal: nat,
}

/// The parser's initial state.
pub open spec fn init_pstate() -> PState {
    PState {
        pending: Seq::<char>::empty(),
        parts: Seq::<GPart>::empty(),
        names: Seq::<Seq<char>>::empty(),
        next_ordinal: 0,
    }
}

/// The decimal digit characters.
pub open spec fn spec_digit_char(d: nat) -> char {
    if d == 0 {
        '0'
    } else if d == 1 {
        '1'
    } else if d == 2 {
        '2'
    } else if d == 3 {
        '3'
    } else if d == 4 {
        '4'
    } else if d == 5 {
        '5'
    } else if d == 6 {
        '6'
    } else if d == 7 {
        '7'
    } else if d == 8 {
        '8'
    } else {
        '9'
    }
}

/// The decimal form of an ordinal, most significant digit first.
pub open spec fn spec_dec_digits(n: nat) -> Seq<char>
    decreases n,
{
    if n < 10 {
        seq![spec_digit_char(n)]
    } else {
        spec_dec_digits(n / 10).push(spec_digit_char(n % 10))
    }
}

/// Moves a non-empty pending fixed value into a fixed-text part,
/// <https://urlpattern.spec.whatwg.org/#maybe-add-a-part-from-the-pending-fixed-value>.
pub open spec fn spec_flush(st: PState) -> PState {
    if st.pending.len() == 0 {
        st
    } else {
        PState {
            pending: Seq::<char>::empty(),
            parts: st.parts.push(GPart::FixedText { value: st.pending, modifier: None }),
            ..st
        }
    }
}

/// The add-a-part procedure,
/// <https://urlpattern.spec.whatwg.org/#add-a-part>: classifies what was
/// captured around a possible placeholder and extends the state, rejecting
/// a duplicate placeholder name.
pub open spec fn spec_add_part(
    st: PState,
    prefix: Seq<char>,
    name: Option<Seq<char>>,
    rw: GRegexpOrWildcard,
    suffix: Seq<char>,
    modifier: Option<Modifier>,
) -> Result<PState, ParseError> {
    if name is None && rw is Absent && modifier is None {
        Ok(PState { pending: st.pending + prefix, ..st })
    } else {
        let st1 = spec_flush(st);
        if name is None && rw is Absent {
            if prefix.len() == 0 {
                Ok(st1)
            } else {
                Ok(
                    PState {
                        parts: st1.parts.push(GPart::FixedText { value: prefix, modifier }),
                        ..st1
                    },
                )
            }
        } else {
            let pname = if name is Some {
                name->0
            } else {
                spec_dec_digits(st1.next_ordinal)
            };
            let ord = if name is Some {
                st1.next_ordinal
            } else {
                st1.next_ordinal + 1
            };
            if st1.names.contains(pname) {
                Err(ParseError::DuplicateName)
            } else {
                let part = match rw {
                    GRegexpOrWildcard::Absent => GPart::SegmentWildcard {
                        name: pname,
                        modifier,
                        prefix,
                        suffix,
                    },
                    GRegexpOrWildcard::Asterisk => GPart::FullWildcard {
                        name: pname,
                        modifier,
                        prefix,
                        suffix,
                    },
                    GRegexpOrWildcard::Regexp(value) => GPart::RegExp {
                        name: pname,
                        value,
                        modifier,
                        prefix,
                        suffix,
                    },
                };
                Ok(
                    PState {
                        pending: st1.pending,
                        parts: st1.parts.push(part),
                        names: st1.names.push(pname),
                        next_ordinal: ord,
                    },
                )
            }
        }
    }
}

/// The token at position `i`, with the end marker standing in for any
/// position past the sequence.
pub open spec fn tok_at(toks: Seq<GToken>, i: int) -> GToken {
    if 0 <= i < toks.len() {
        toks[i]
    } else {
        GToken::End
    }
}

/// The character a char token carries.
pub open spec fn char_tok_val(t: GToken) -> Option<char> {
    match t {
        GToken::Char(c) => Some(c),
        _ => None,
    }
}

/// The character an escaped-char token carries.
pub open spec fn esc_tok_val(t: GToken) -> Option<char> {
    match t {
        GToken::EscapedChar(c) => Some(c),
        _ => None,
    }
}

/// The identifier a name token carries.
pub open spec fn name_tok_val(t: GToken) -> Option<Seq<char>> {
    match t {
        GToken::Name(s) => Some(s),
        _ => None,
    }
}

/// The character a char or escaped-char token contributes to literal text.
pub open spec fn text_tok_val(t: GToken) -> Option<char> {
    match t {
        GToken::Char(c) => Some(c),
        GToken::EscapedChar(c) => Some(c),
        _ => None,
    }
}

/// What try-to-consume-a-regexp-or-wildcard-token takes at `t`: a regexp
/// token if present, otherwise — only when no name was consumed — a bare
/// asterisk, <https://urlpattern.spec.whatwg.org/#try-to-consume-a-regexp-or-wildcard-token>.
pub open spec fn spec_regexp_or_wildcard(t: GToken, has_name: bool) -> GRegexpOrWildcard {
    match t {
        GToken::RegExp(v) => GRegexpOrWildcard::Regexp(v),
        GToken::Asterisk => if has_name {
            GRegexpOrWildcard::Absent
        } else {
            GRegexpOrWildcard::Asterisk
        },
        _ => GRegexpOrWildcard::Absent,
    }
}

/// The modifier consumed at position `i`, if any, and the next position.
pub open spec fn spec_try_modifier(toks: Seq<GToken>, i: int) -> (Option<Modifier>, int) {
    match tok_at(toks, i) {
        GToken::QuestionMark => (Some(Modifier::Optional), i + 1),
        GToken::Plus => (Some(Modifier::OneOrMore), i + 1),
        GToken::Asterisk => (Some(Modifier::ZeroOrMore), i + 1),
        _ => (None, i),
    }
}

/// The number of char and escaped-char tokens at and after position `i`:
/// how far consume-text reads.
pub open spec fn text_run_len(toks: Seq<GToken>, i: int) -> nat
    decreases toks.len() - i,
{
    if 0 <= i < toks.len() && text_tok_val(toks[i]) is Some {
        (1 + text_run_len(toks, i + 1)) as nat
    } else {
        0
    }
}

/// The literal text of the char and escaped-char tokens at and after
/// position `i`: what consume-text returns.
pub open spec fn text_chars(toks: Seq<GToken>, i: int) -> Seq<char>
    decreases toks.len() - i,
{
    if 0 <= i < toks.len() && text_tok_val(toks[i]) is Some {
        seq![text_tok_val(toks[i])->0] + text_chars(toks, i + 1)
    } else {
        Seq::<char>::empty()
    }
}

pub proof fn lemma_text_run_len_bound(toks: Seq<GToken>, i: int)
    requires
        0 <= i <= toks.len(),
    ensures
        i + text_run_len(toks, i) <= toks.len(),
    decreases toks.len() - i,
{
    if i < toks.len() && text_tok_val(toks[i]) is Some {
        lemma_text_run_len_bound(toks, i + 1);
    }
}

/// The parse of the tokens from position `i` on, in state `st`: the
/// parser's core loop, giving the result and the parser state at the
/// moment the loop stops. Each round consumes an optional char token, an
/// optional name token and an optional regexp-or-wildcard token; a
/// placeholder occurrence, a plain literal character, a `{...}` group or
/// the end marker follow from what matched.
pub open spec fn spec_parse_run(toks: Seq<GToken>, opts: Options, i: int, st: PState) -> (Result<
    Seq<GPart>,
    ParseError,
>, PState)
    decreases toks.len() - i,
{
    let t0 = tok_at(toks, i);
    let char_tok = char_tok_val(t0);
    let i1 = if char_tok is Some {
        i + 1
    } else {
        i
    };
    let name_tok = name_tok_val(tok_at(toks, i1));
    let i2 = if name_tok is Some {
        i1 + 1
    } else {
        i1
    };
    let rw = spec_regexp_or_wildcard(tok_at(toks, i2), name_tok is Some);
    let i3 = if rw is Absent {
        i2
    } else {
        i2 + 1
    };
    if name_tok is Some || !(rw is Absent) {
        // A placeholder occurrence: resolve the candidate prefix, flush the
        // pending fixed value, consume a modifier, add the part.
        let keep = char_tok is None || opts.prefix == Some(char_tok->0);
        let pend = if char_tok is Some && !keep {
            st.pending.push(char_tok->0)
        } else {
            st.pending
        };
        let prefix = if char_tok is Some && keep {
            seq![char_tok->0]
        } else {
            Seq::<char>::empty()
        };
        let st1 = spec_flush(PState { pending: pend, ..st });
        let m = spec_try_modifier(toks, i3);
        match spec_add_part(st1, prefix, name_tok, rw, Seq::<char>::empty(), m.0) {
            Ok(st2) => spec_parse_run(toks, opts, m.1, st2),
            Err(e) => (Err(e), st1),
        }
    } else if char_tok is Some {
        // A plain literal character joins the pending fixed value.
        spec_parse_run(toks, opts, i + 1, PState { pending: st.pending.push(char_tok->0), ..st })
    } else if esc_tok_val(t0) is Some {
        // An escaped character joins the pending fixed value.
        spec_parse_run(
            toks,
            opts,
            i + 1,
            PState { pending: st.pending.push(esc_tok_val(t0)->0), ..st },
        )
    } else if t0 is Open {
        // A `{...}` group: literal prefix text, an optional name, an
        // optional regexp-or-wildcard, literal suffix text, a required
        // close, an optional modifier.
        let p_end = i + 1 + text_run_len(toks, i + 1);
        let gprefix = text_chars(toks, i + 1);
        let gname = name_tok_val(tok_at(toks, p_end));
        let j1 = if gname is Some {
            p_end + 1
        } else {
            p_end
        };
        let grw = spec_regexp_or_wildcard(tok_at(toks, j1), gname is Some);
        let j2 = if grw is Absent {
            j1
        } else {
            j1 + 1
        };
        let s_end = j2 + text_run_len(toks, j2);
        let gsuffix = text_chars(toks, j2);
        proof {
            lemma_text_run_len_bound(toks, i + 1);
            lemma_text_run_len_bound(toks, j2);
        }
        if tok_at(toks, s_end) is Close {
            let m = spec_try_modifier(toks, s_end + 1);
            match spec_add_part(st, gprefix, gname, grw, gsuffix, m.0) {
                Ok(st2) => spec_parse_run(toks, opts, m.1, st2),
                Err(e) => (Err(e), spec_flush(st)),
            }
        } else {
            (Err(ParseError::MissingClosingCurly), st)
        }
    } else {
        // End of the pattern: flush the pending fixed value and require
        // the end marker.
        if t0 is End {
            (Ok(spec_flush(st).parts), spec_flush(st))
        } else {
            (Err(ParseError::UnexpectedEnd), spec_flush(st))
        }
    }
}

/// The result of the parse of the tokens from position `i` on, in state
/// `st`.
pub open spec fn spec_parse_from(toks: Seq<GToken>, opts: Options, i: int, st: PState) -> Result<
    Seq<GPart>,
    ParseError,
> {
    spec_parse_run(toks, opts, i, st).0
}

/// The parse of a whole token sequence.
pub open spec fn spec_parse(toks: Seq<GToken>, opts: Options) -> Result<Seq<GPart>, ParseError> {
    spec_parse_from(toks, opts, 0, init_pstate())
}

/// One decimal digit as a character.
fn digit_char_of(d: usize) -> (c: char)
    requires
        d < 10,
    ensures
        c == spec_digit_char(d as nat),
{
    if d == 0 {
        '0'
    } else if d == 1 {
        '1'
    } else if d == 2 {
        '2'
    } else if d == 3 {
        '3'
    } else if d == 4 {
        '4'
    } else if d == 5 {
        '5'
    } else if d == 6 {
        '6'
    } else if d == 7 {
        '7'
    } else if d == 8 {
        '8'
    } else {
        '9'
    }
}

/// The decimal form of an ordinal: the fallback name of an unnamed
/// placeholder.
fn usize_to_string(n: usize) -> (r: String)
    ensures
        r@ == spec_dec_digits(n as nat),
    decreases n,
{
    if n < 10 {
        let mut s = String::new();
        s.push(digit_char_of(n));
        proof {
            assert(s@ =~= spec_dec_digits(n as nat));
        }
        s
    } else {
        let mut s = usize_to_string(n / 10);
        s.push(digit_char_of(n % 10));
        s
    }
}

/// Whether `n` is among the names already given to placeholders.
fn contains_name(names: &Vec<String>, n: &String) -> (b: bool)
    ensures
        b == nview(names@).contains(n@),
{
    let mut k: usize = 0;
    let mut found = false;
    while k < names.len()
        invariant
            k <= names@.len(),
            found <==> exists|j: int| 0 <= j < k && names@[j]@ == n@,
        decreases names@.len() - k,
    {
        if names[k].eq(n) {
            found = true;
            proof {
                assert(names@[k as int]@ == n@);
            }
        }
        k = k + 1;
    }
    proof {
        assert(forall|j: int|
            0 <= j < names@.len() ==> nview(names@)[j] == #[trigger] names@[j]@);
        if found {
            let j = choose|j: int| 0 <= j < names@.len() && names@[j]@ == n@;
            assert(nview(names@)[j] == n@);
        } else {
            if nview(names@).contains(n@) {
                let j = choose|j: int| 0 <= j < nview(names@).len() && nview(names@)[j] == n@;
                assert(names@[j]@ == n@);
            }
        }
    }
    found
}

proof fn lemma_vec_len_bound<T>(v: &Vec<T>)
    ensures
        v@.len() <= usize::MAX,
{
    vstd::std_specs::vec::axiom_spec_len(v);
    assert(vstd::std_specs::vec::spec_vec_len(v) == v@.len());
}

/// The literal character of the token at position `i`, where a char or
/// escaped-char token stands; nothing is consumed.
fn peek_text(tokens: &Vec<Token>, i: usize) -> (r: Option<char>)
    requires
        i < tokens@.len(),
    ensures
        r == text_tok_val(tview(tokens@)[i as int]),
{
    proof {
        assert(tview(tokens@)[i as int] == tokens@[i as int]@);
    }
    match &tokens[i] {
        Token::Char(c) => Some(*c),
        Token::EscapedChar(c) => Some(*c),
        _ => None,
    }
}

/// The kinds of payload-free tokens the parser consumes by kind.
#[derive(Clone, Copy)]
pub enum TokenKind {
    Open,
    Close,
    End,
}

/// Whether a token is of the given payload-free kind.
pub open spec fn kind_matches(kind: TokenKind, t: GToken) -> bool {
    match (kind, t) {
        (TokenKind::Open, GToken::Open) => true,
        (TokenKind::Close, GToken::Close) => true,
        (TokenKind::End, GToken::End) => true,
        _ => false,
    }
}

/// Everything of two parser states but the cursor agrees.
pub open spec fn same_but_index(a: Parser, b: Parser) -> bool {
    &&& b.tokens@ == a.tokens@
    &&& b.options == a.options
    &&& b.pending_fixed_value@ == a.pending_fixed_value@
    &&& b.parts@ == a.parts@
    &&& b.names@ == a.names@
    &&& b.next_ordinal == a.next_ordinal
}

/// The parser: a cursor over the tokens, the pending fixed value that
/// coalesces consecutive literal characters, the parts emitted so far, the
/// names already used by placeholders, and the ordinal that names the next
/// unnamed placeholder.
pub struct Parser {
    pub tokens: Vec<Token>,
    pub options: Options,
    pub index: usize,
    pub pending_fixed_value: String,
    pub parts: Vec<Part>,
    pub names: Vec<String>,
    pub next_ordinal: usize,
}

impl Parser {
    /// The tokens, abstractly.
    pub open spec fn toksv(&self) -> Seq<GToken> {
        tview(self.tokens@)
    }

    /// The mutable state, abstractly.
    pub open spec fn st(&self) -> PState {
        PState {
            pending: self.pending_fixed_value@,
            parts: pview(self.parts@),
            names: nview(self.names@),
            next_ordinal: self.next_ordinal as nat,
        }
    }

    /// A fresh parser over the given tokens and options.
    pub fn new(tokens: Vec<Token>, options: &Options) -> (r: Parser)
        ensures
            r.tokens@ == tokens@,
            r.options == *options,
            r.index == 0,
            r.st() == init_pstate(),
    {
        let r = Parser {
            tokens,
            options: *options,
            index: 0,
            pending_fixed_value: String::new(),
            parts: Vec::new(),
            names: Vec::new(),
            next_ordinal: 0,
        };
        proof {
            assert(pview(r.parts@) =~= Seq::<GPart>::empty());
            assert(nview(r.names@) =~= Seq::<Seq<char>>::empty());
            assert(r.st() =~~= init_pstate());
        }
        r
    }

    /// Tries to consume one char token.
    fn try_consume_char(&mut self) -> (r: Option<char>)
        requires
            old(self).index < old(self).tokens@.len(),
        ensures
            same_but_index(*old(self), *final(self)),
            r == char_tok_val(tview(old(self).tokens@)[old(self).index as int]),
            final(self).index as int == old(self).index + (if r is Some {
                1int
            } else {
                0int
            }),
    {
        proof {
            lemma_vec_len_bound(&self.tokens);
            assert(tview(self.tokens@)[self.index as int] == self.tokens@[self.index as int]@);
        }
        match &self.tokens[self.index] {
            Token::Char(c) => {
                let ch = *c;
                self.index = self.index + 1;
                Some(ch)
            },
            _ => None,
        }
    }

    /// Tries to consume one escaped-char token.
    fn try_consume_escaped(&mut self) -> (r: Option<char>)
        requires
            old(self).index < old(self).tokens@.len(),
        ensures
            same_but_index(*old(self), *final(self)),
            r == esc_tok_val(tview(old(self).tokens@)[old(self).index as int]),
            final(self).index as int == old(self).index + (if r is Some {
                1int
            } else {
                0int
            }),
    {
        proof {
            lemma_vec_len_bound(&self.tokens);
            assert(tview(self.tokens@)[self.index as int] == self.tokens@[self.index as int]@);
        }
        match &self.tokens[self.index] {
            Token::EscapedChar(c) => {
                let ch = *c;
                self.index = self.index + 1;
                Some(ch)
            },
            _ => None,
        }
    }

    /// Tries to consume one name token.
    fn try_consume_name(&mut self) -> (r: Option<String>)
        requires
            old(self).index < old(self).tokens@.len(),
        ensures
            same_but_index(*old(self), *final(self)),
            onview(r) == name_tok_val(tview(old(self).tokens@)[old(self).index as int]),
            final(self).index as int == old(self).index + (if r is Some {
                1int
            } else {
                0int
            }),
    {
        proof {
            lemma_vec_len_bound(&self.tokens);
            assert(tview(self.tokens@)[self.index as int] == self.tokens@[self.index as int]@);
        }
        match &self.tokens[self.index] {
            Token::Name(s) => {
                let nm = s.clone();
                self.index = self.index + 1;
                Some(nm)
            },
            _ => None,
        }
    }

    /// Tries to consume a payload-free token of the given kind.
    fn try_consume_token(&mut self, kind: TokenKind) -> (b: bool)
        requires
            old(self).index < old(self).tokens@.len(),
        ensures
            same_but_index(*old(self), *final(self)),
            b == kind_matches(kind, tview(old(self).tokens@)[old(self).index as int]),
            final(self).index as int == old(self).index + (if b {
                1int
            } else {
                0int
            }),
    {
        proof {
            lemma_vec_len_bound(&self.tokens);
            assert(tview(self.tokens@)[self.index as int] == self.tokens@[self.index as int]@);
        }
        let matched = match (kind, &self.tokens[self.index]) {
            (TokenKind::Open, Token::Open) => true,
            (TokenKind::Close, Token::Close) => true,
            (TokenKind::End, Token::End) => true,
            _ => false,
        };
        if matched {
            self.index = self.index + 1;
        }
        matched
    }

    /// Tries to consume a modifier token: `?`, `+` or `*`.
    pub fn try_consume_modifier(&mut self) -> (r: Option<Modifier>)
        requires
            old(self).index < old(self).tokens@.len(),
        ensures
            same_but_index(*old(self), *final(self)),
            r == spec_try_modifier(tview(old(self).tokens@), old(self).index as int).0,
            final(self).index as int == spec_try_modifier(
                tview(old(self).tokens@),
                old(self).index as int,
            ).1,
    {
        proof {
            lemma_vec_len_bound(&self.tokens);
            assert(tview(self.tokens@)[self.index as int] == self.tokens@[self.index as int]@);
        }
        let modifier = match &self.tokens[self.index] {
            Token::QuestionMark => Modifier::Optional,
            Token::Plus => Modifier::OneOrMore,
            Token::Asterisk => Modifier::ZeroOrMore,
            _ => {
                return None;
            },
        };
        self.index = self.index + 1;
        Some(modifier)
    }

    /// Tries to consume a regexp token; failing that, and only when no name
    /// token was consumed, a bare asterisk.
    pub fn try_consume_regexp_or_wildcard(&mut self, has_name: bool) -> (r: Option<
        RegexpOrWildcard,
    >)
        requires
            old(self).index < old(self).tokens@.len(),
        ensures
            same_but_index(*old(self), *final(self)),
            rwview(r) == spec_regexp_or_wildcard(
                tview(old(self).tokens@)[old(self).index as int],
                has_name,
            ),
            final(self).index as int == old(self).index + (if r is Some {
                1int
            } else {
                0int
            }),
    {
        proof {
            lemma_vec_len_bound(&self.tokens);
            assert(tview(self.tokens@)[self.index as int] == self.tokens@[self.index as int]@);
        }
        match &self.tokens[self.index] {
            Token::RegExp(s) => {
                let v = s.clone();
                self.index = self.index + 1;
                return Some(RegexpOrWildcard::Regexp(v));
            },
            Token::Asterisk => {
                if !has_name {
                    self.index = self.index + 1;
                    return Some(RegexpOrWildcard::Asterisk);
                }
            },
            _ => {},
        }
        None
    }

    /// Consumes the run of char and escaped-char tokens at the cursor as
    /// literal text.
    pub fn consume_text(&mut self) -> (r: String)
        requires
            tokens_wf(tview(old(self).tokens@)),
            old(self).index < old(self).tokens@.len(),
        ensures
            same_but_index(*old(self), *final(self)),
            final(self).index < final(self).tokens@.len(),
            final(self).index as int == old(self).index + text_run_len(
                tview(old(self).tokens@),
                old(self).index as int,
            ),
            r@ == text_chars(tview(old(self).tokens@), old(self).index as int),
    {
        proof {
            lemma_vec_len_bound(&self.tokens);
        }
        let ghost tv = tview(self.tokens@);
        let ghost start = self.index as int;
        let mut result = String::new();
        while peek_text(&self.tokens, self.index).is_some()
            invariant
                same_but_index(*old(self), *self),
                tv == tview(self.tokens@),
                tokens_wf(tv),
                start <= self.index as int <= tv.len(),
                self.index < self.tokens@.len(),
                text_run_len(tv, start) == (self.index - start) + text_run_len(
                    tv,
                    self.index as int,
                ),
                text_chars(tv, start) == result@ + text_chars(tv, self.index as int),
            decreases tv.len() - self.index,
        {
            let ghost i = self.index as int;
            let ghost r0 = result@;
            let oc = peek_text(&self.tokens, self.index);
            let c = match oc {
                Some(c) => c,
                None => ' ',
            };
            result.push(c);
            proof {
                lemma_vec_len_bound(&self.tokens);
            }
            self.index = self.index + 1;
            proof {
                assert(!tok_is_end(tv[i]));
                assert(i < tv.len() - 1);
                assert(text_chars(tv, i) == seq![c] + text_chars(tv, i + 1));
                assert(r0 + (seq![c] + text_chars(tv, i + 1)) =~= (r0.push(c)) + text_chars(
                    tv,
                    i + 1,
                ));
                assert(result@ == r0.push(c));
            }
        }
        proof {
            assert(text_run_len(tv, self.index as int) == 0);
            assert(text_chars(tv, self.index as int) =~= Seq::<char>::empty());
            assert(result@ + Seq::<char>::empty() =~= result@);
        }
        result
    }

    /// Moves a non-empty pending fixed value into a fixed-text part with no
    /// modifier.
    pub fn maybe_add_part_from_pending_fixed_value(&mut self)
        ensures
            final(self).tokens@ == old(self).tokens@,
            final(self).options == old(self).options,
            final(self).index == old(self).index,
            final(self).names@ == old(self).names@,
            final(self).next_ordinal == old(self).next_ordinal,
            final(self).st() == spec_flush(old(self).st()),
    {
        if self.pending_fixed_value.as_str().is_empty() {
            return ;
        }
        let value = self.pending_fixed_value.clone();
        self.pending_fixed_value = String::new();
        self.parts.push(Part::FixedText { value, modifier: None });
        proof {
            assert(pview(self.parts@) =~= pview(old(self).parts@).push(
                GPart::FixedText { value: old(self).pending_fixed_value@, modifier: None },
            ));
            assert(self.st() =~~= spec_flush(old(self).st()));
        }
    }

    /// The add-a-part procedure: classifies what was captured around a
    /// possible placeholder and emits the part, giving an unnamed
    /// placeholder the next ordinal as its name and rejecting a duplicate
    /// name.
    pub fn add_part(
        &mut self,
        prefix: String,
        name: Option<String>,
        regexp_or_wildcard: Option<RegexpOrWildcard>,
        suffix: String,
        modifier: Option<Modifier>,
    ) -> (r: Result<(), ParseError>)
        requires
            old(self).next_ordinal < usize::MAX,
        ensures
            final(self).tokens@ == old(self).tokens@,
            final(self).options == old(self).options,
            final(self).index == old(self).index,
            final(self).names@.len() <= old(self).names@.len() + 1,
            (r is Ok && old(self).next_ordinal <= old(self).names@.len())
                ==> final(self).next_ordinal <= final(self).names@.len(),
            r is Err ==> final(self).st() == spec_flush(old(self).st()),
            match r {
                Ok(()) => spec_add_part(
                    old(self).st(),
                    prefix@,
                    onview(name),
                    rwview(regexp_or_wildcard),
                    suffix@,
                    modifier,
                ) == Ok::<PState, ParseError>(final(self).st()),
                Err(e) => spec_add_part(
                    old(self).st(),
                    prefix@,
                    onview(name),
                    rwview(regexp_or_wildcard),
                    suffix@,
                    modifier,
                ) == Err::<PState, ParseError>(e),
            },
    {
        if name.is_none() && regexp_or_wildcard.is_none() && modifier.is_none() {
            // A brace group around pure literal text: the prefix joins the
            // pending fixed value.
            self.pending_fixed_value.append(prefix.as_str());
            proof {
                assert(self.st() =~~= PState {
                    pending: old(self).st().pending + prefix@,
                    ..old(self).st()
                });
            }
            return Ok(());
        }
        self.maybe_add_part_from_pending_fixed_value();
        let ghost st1 = spec_flush(old(self).st());
        if name.is_none() && regexp_or_wildcard.is_none() {
            // A braced literal with a modifier.
            if prefix.as_str().is_empty() {
                proof {
                    assert(prefix@ =~= Seq::<char>::empty());
                    assert(self.st() =~~= st1);
                }
                return Ok(());
            }
            let ghost gprefix = prefix@;
            self.parts.push(Part::FixedText { value: prefix, modifier });
            proof {
                assert(pview(self.parts@) =~= st1.parts.push(
                    GPart::FixedText { value: gprefix, modifier },
                ));
                assert(self.st() =~~= PState {
                    parts: st1.parts.push(GPart::FixedText { value: gprefix, modifier }),
                    ..st1
                });
            }
            return Ok(());
        }
        // A placeholder: named by its identifier, or by the next ordinal.
        let named = name.is_some();
        let part_name: String = match name {
            Some(n) => n,
            None => usize_to_string(self.next_ordinal),
        };
        let ghost gname = part_name@;
        if contains_name(&self.names, &part_name) {
            proof {
                assert(self.st() =~~= spec_flush(old(self).st()));
            }
            return Err(ParseError::DuplicateName);
        }
        if !named {
            self.next_ordinal = self.next_ordinal + 1;
        }
        self.names.push(part_name.clone());
        proof {
            assert(nview(self.names@) =~= st1.names.push(gname));
        }
        let ghost gprefix = prefix@;
        let ghost gsuffix = suffix@;
        match regexp_or_wildcard {
            None => {
                self.parts.push(
                    Part::SegmentWildcard { name: part_name, modifier, prefix, suffix },
                );
                proof {
                    assert(pview(self.parts@) =~= st1.parts.push(
                        GPart::SegmentWildcard { name: gname, modifier, prefix: gprefix, suffix: gsuffix },
                    ));
                }
            },
            Some(RegexpOrWildcard::Asterisk) => {
                self.parts.push(Part::FullWildcard { name: part_name, modifier, prefix, suffix });
                proof {
                    assert(pview(self.parts@) =~= st1.parts.push(
                        GPart::FullWildcard { name: gname, modifier, prefix: gprefix, suffix: gsuffix },
                    ));
                }
            },
            Some(RegexpOrWildcard::Regexp(value)) => {
                self.parts.push(
                    Part::RegExp { name: part_name, value, modifier, prefix, suffix },
                );
                proof {
                    assert(pview(self.parts@) =~= st1.parts.push(
                        GPart::RegExp {
                            name: gname,
                            value: rwview(regexp_or_wildcard)->Regexp_0,
                            modifier,
                            prefix: gprefix,
                            suffix: gsuffix,
                        },
                    ));
                }
            },
        }
        proof {
            assert(spec_add_part(
                old(self).st(),
                prefix@,
                onview(name),
                rwview(regexp_or_wildcard),
                suffix@,
                modifier,
            ) == Ok::<PState, ParseError>(self.st())) by {
                assert(self.st() =~~= spec_add_part(
                    old(self).st(),
                    prefix@,
                    onview(name),
                    rwview(regexp_or_wildcard),
                    suffix@,
                    modifier,
                )->Ok_0);
            }
        }
        Ok(())
    }

    /// Runs the core loop over the tokens: the parse of the whole pattern.
    #[verifier::rlimit(100)]
    #[verifier::spinoff_prover]
    pub fn parse(&mut self) -> (r: Result<(), ParseError>)
        requires
            tokens_wf(tview(old(self).tokens@)),
            old(self).index < old(self).tokens@.len(),
            old(self).names@.len() <= old(self).index,
            old(self).next_ordinal <= old(self).names@.len(),
        ensures
            final(self).tokens@ == old(self).tokens@,
            final(self).options == old(self).options,
            final(self).st() == spec_parse_run(
                tview(old(self).tokens@),
                old(self).options,
                old(self).index as int,
                old(self).st(),
            ).1,
            r is Ok ==> final(self).index == final(self).tokens@.len(),
            match r {
                Ok(()) => spec_parse_from(
                    tview(old(self).tokens@),
                    old(self).options,
                    old(self).index as int,
                    old(self).st(),
                ) == Ok::<Seq<GPart>, ParseError>(pview(final(self).parts@)),
                Err(e) => spec_parse_from(
                    tview(old(self).tokens@),
                    old(self).options,
                    old(self).index as int,
                    old(self).st(),
                ) == Err::<Seq<GPart>, ParseError>(e),
            },
    {
        let ghost tv = tview(self.tokens@);
        let ghost opts = self.options;
        let ghost target = spec_parse_run(tv, opts, old(self).index as int, old(self).st());
        loop
            invariant
                self.tokens@ == old(self).tokens@,
                self.options == old(self).options,
                tv == tview(self.tokens@),
                opts == self.options,
                tokens_wf(tv),
                self.index < self.tokens@.len(),
                self.names@.len() <= self.index,
                self.next_ordinal <= self.names@.len(),
                spec_parse_run(tv, opts, self.index as int, self.st()) == target,
                target == spec_parse_run(
                    tview(old(self).tokens@),
                    old(self).options,
                    old(self).index as int,
                    old(self).st(),
                ),
            decreases tv.len() - self.index,
        {
            let ghost i0 = self.index as int;
            let ghost st0 = self.st();
            let char_token = self.try_consume_char();
            proof {
                if self.index != i0 {
                    assert(!tok_is_end(tv[i0]));
                    assert(i0 != tv.len() - 1);
                }
            }
            let ghost i1 = self.index as int;
            let name_token = self.try_consume_name();
            proof {
                if self.index != i1 {
                    assert(!tok_is_end(tv[i1]));
                    assert(i1 != tv.len() - 1);
                }
            }
            let ghost i2 = self.index as int;
            let regexp_or_wildcard = self.try_consume_regexp_or_wildcard(name_token.is_some());
            proof {
                if self.index != i2 {
                    assert(!tok_is_end(tv[i2]));
                    assert(i2 != tv.len() - 1);
                }
            }
            let ghost i3 = self.index as int;
            if name_token.is_some() || regexp_or_wildcard.is_some() {
                let mut prefix = String::new();
                match char_token {
                    Some(c) => {
                        let keep: bool = match self.options.prefix {
                            Some(p) => c == p,
                            None => false,
                        };
                        if keep {
                            prefix.push(c);
                            proof {
                                assert(prefix@ =~= seq![c]);
                            }
                        } else {
                            self.pending_fixed_value.push(c);
                        }
                    },
                    None => {},
                }
                self.maybe_add_part_from_pending_fixed_value();
                let modifier = self.try_consume_modifier();
                let ghost i4 = self.index as int;
                proof {
                    assert(self.next_ordinal < usize::MAX);
                }
                let ghost stf = self.st();
                match self.add_part(prefix, name_token, regexp_or_wildcard, String::new(), modifier)
                {
                    Ok(()) => {
                        proof {
                            assert(spec_parse_run(tv, opts, i0, st0) == spec_parse_run(
                                tv,
                                opts,
                                i4,
                                self.st(),
                            ));
                        }
                    },
                    Err(e) => {
                        proof {
                            assert(self.st() =~~= stf);
                            assert(spec_parse_run(tv, opts, i0, st0) == (
                                Err::<Seq<GPart>, ParseError>(e),
                                self.st(),
                            ));
                        }
                        return Err(e);
                    },
                }
            } else if let Some(c) = char_token {
                self.pending_fixed_value.push(c);
                proof {
                    assert(self.st() =~~= PState { pending: st0.pending.push(c), ..st0 });
                    assert(spec_parse_run(tv, opts, i0, st0) == spec_parse_run(
                        tv,
                        opts,
                        i0 + 1,
                        self.st(),
                    ));
                }
            } else if let Some(c) = self.try_consume_escaped() {
                self.pending_fixed_value.push(c);
                proof {
                    assert(self.st() =~~= PState { pending: st0.pending.push(c), ..st0 });
                    assert(spec_parse_run(tv, opts, i0, st0) == spec_parse_run(
                        tv,
                        opts,
                        i0 + 1,
                        self.st(),
                    ));
                }
            } else if self.try_consume_token(TokenKind::Open) {
                proof {
                    assert(!tok_is_end(tv[i0]));
                    assert(i0 != tv.len() - 1);
                }
                let prefix = self.consume_text();
                let ghost p_end = self.index as int;
                let name = self.try_consume_name();
                proof {
                    if self.index != p_end {
                        assert(!tok_is_end(tv[p_end]));
                        assert(p_end != tv.len() - 1);
                    }
                }
                let ghost j1 = self.index as int;
                let regexp_or_wildcard = self.try_consume_regexp_or_wildcard(name.is_some());
                proof {
                    if self.index != j1 {
                        assert(!tok_is_end(tv[j1]));
                        assert(j1 != tv.len() - 1);
                    }
                }
                let ghost j2 = self.index as int;
                let suffix = self.consume_text();
                let ghost s_end = self.index as int;
                if !self.try_consume_token(TokenKind::Close) {
                    proof {
                        assert(spec_parse_run(tv, opts, i0, st0) == (
                            Err::<Seq<GPart>, ParseError>(ParseError::MissingClosingCurly),
                            self.st(),
                        ));
                    }
                    return Err(ParseError::MissingClosingCurly);
                }
                proof {
                    assert(!tok_is_end(tv[s_end]));
                    assert(s_end != tv.len() - 1);
                }
                let modifier = self.try_consume_modifier();
                let ghost i4 = self.index as int;
                proof {
                    assert(self.next_ordinal < usize::MAX);
                }
                match self.add_part(prefix, name, regexp_or_wildcard, suffix, modifier) {
                    Ok(()) => {
                        proof {
                            assert(spec_parse_run(tv, opts, i0, st0) == spec_parse_run(
                                tv,
                                opts,
                                i4,
                                self.st(),
                            ));
                        }
                    },
                    Err(e) => {
                        proof {
                            assert(spec_parse_run(tv, opts, i0, st0) == (
                                Err::<Seq<GPart>, ParseError>(e),
                                self.st(),
                            ));
                        }
                        return Err(e);
                    },
                }
            } else {
                self.maybe_add_part_from_pending_fixed_value();
                if !self.try_consume_token(TokenKind::End) {
                    proof {
                        assert(spec_parse_run(tv, opts, i0, st0) == (
                            Err::<Seq<GPart>, ParseError>(ParseError::UnexpectedEnd),
                            self.st(),
                        ));
                    }
                    return Err(ParseError::UnexpectedEnd);
                }
                proof {
                    assert(spec_parse_run(tv, opts, i0, st0) == (
                        Ok::<Seq<GPart>, ParseError>(pview(self.parts@)),
                        self.st(),
                    ));
                    assert(i0 == tv.len() - 1);
                    assert(self.index == self.tokens@.len());
                }
                return Ok(());
            }
        }
    }
}

} // verus!
