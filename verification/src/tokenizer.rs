//! The tokenizer: scans a raw pattern string left to right and produces an
//! ordered token sequence terminated by exactly one end-of-input marker,
//! <https://urlpattern.spec.whatwg.org/#tokenizing>.

use vstd::prelude::*;
use vstd::string::StrSliceExecFns;

use crate::ParseError;

verus! {

/// The mathematical form of a token: payloads are character sequences.
pub enum GToken {
    Open,
    Close,
    RegExp(Seq<char>),
    Name(Seq<char>),
    Char(char),
    EscapedChar(char),
    Plus,
    QuestionMark,
    Asterisk,
    End,
    InvalidChar,
}

/// A token produced by the tokenizer,
/// <https://urlpattern.spec.whatwg.org/#token>.
pub enum Token {
    /// `{`
    Open,
    /// `}`
    Close,
    /// The contents of a parenthesized custom group, parentheses stripped.
    RegExp(String),
    /// The identifier following `:`.
    Name(String),
    /// An ordinary character.
    Char(char),
    /// A backslash-escaped character; the value is the escaped character.
    EscapedChar(char),
    /// `+`, an "other-modifier".
    Plus,
    /// `?`, an "other-modifier".
    QuestionMark,
    /// `*`
    Asterisk,
    /// The sentinel: always exactly one, always last.
    End,
    /// Reserved for a lenient tokenizing mode.
    InvalidChar,
}

impl View for Token {
    type V = GToken;

    open spec fn view(&self) -> GToken {
        match self {
            Token::Open => GToken::Open,
            Token::Close => GToken::Close,
            Token::RegExp(s) => GToken::RegExp(s@),
            Token::Name(s) => GToken::Name(s@),
            Token::Char(c) => GToken::Char(*c),
            Token::EscapedChar(c) => GToken::EscapedChar(*c),
            Token::Plus => GToken::Plus,
            Token::QuestionMark => GToken::QuestionMark,
            Token::Asterisk => GToken::Asterisk,
            Token::End => GToken::End,
            Token::InvalidChar => GToken::InvalidChar,
        }
    }
}

/// The views of a token sequence.
pub open spec fn tview(ts: Seq<Token>) -> Seq<GToken> {
    ts.map_values(|t: Token| t@)
}

/// Whether a token is the end-of-input marker.
pub open spec fn tok_is_end(t: GToken) -> bool {
    match t {
        GToken::End => true,
        _ => false,
    }
}

/// A well-formed token sequence: non-empty, the end marker last and only
/// last.
pub open spec fn tokens_wf(ts: Seq<GToken>) -> bool {
    &&& ts.len() > 0
    &&& tok_is_end(ts[ts.len() - 1])
    &&& forall|k: int| 0 <= k < ts.len() - 1 ==> !tok_is_end(ts[k])
}

/// The tokenizing policy. Only the strict policy is exercised: errors are
/// reported to the caller rather than demoted to `InvalidChar` tokens.
pub enum Policy {
    Strict,
    Lenient,
}

/// Whether `c` is an ASCII letter, the only characters an identifier may
/// hold.
pub open spec fn spec_is_ascii_letter(c: char) -> bool {
    ('A' as u32) <= (c as u32) && (c as u32) <= ('Z' as u32) || ('a' as u32) <= (c as u32) && (
    c as u32) <= ('z' as u32)
}

fn is_ascii_letter(c: char) -> (b: bool)
    ensures
        b == spec_is_ascii_letter(c),
{
    let u: u32 = c as u32;
    ('A' as u32) <= u && u <= ('Z' as u32) || ('a' as u32) <= u && u <= ('z' as u32)
}

/// The number of ASCII letters at and after position `i`: the length of the
/// identifier a `:` at position `i - 1` captures.
pub open spec fn name_run_len(s: Seq<char>, i: int) -> nat
    decreases s.len() - i,
{
    if 0 <= i < s.len() && spec_is_ascii_letter(s[i]) {
        (1 + name_run_len(s, i + 1)) as nat
    } else {
        0
    }
}

pub proof fn lemma_name_run_len_bound(s: Seq<char>, i: int)
    requires
        0 <= i <= s.len(),
    ensures
        i + name_run_len(s, i) <= s.len(),
    decreases s.len() - i,
{
    if i < s.len() && spec_is_ascii_letter(s[i]) {
        lemma_name_run_len_bound(s, i + 1);
    }
}

/// The position of the `)` that closes a custom group: scanning from `i`
/// with `depth` many groups open, the first position where the depth
/// returns to zero, or nothing when the input ends first.
pub open spec fn close_paren_idx(s: Seq<char>, i: int, depth: int) -> Option<int>
    decreases s.len() - i,
{
    if i < 0 || i >= s.len() {
        None
    } else if s[i] == ')' {
        if depth == 1 {
            Some(i)
        } else {
            close_paren_idx(s, i + 1, depth - 1)
        }
    } else if s[i] == '(' {
        close_paren_idx(s, i + 1, depth + 1)
    } else {
        close_paren_idx(s, i + 1, depth)
    }
}

pub proof fn lemma_close_paren_idx_bound(s: Seq<char>, i: int, depth: int)
    ensures
        match close_paren_idx(s, i, depth) {
            Some(j) => i <= j < s.len(),
            None => true,
        },
    decreases s.len() - i,
{
    if 0 <= i < s.len() {
        lemma_close_paren_idx_bound(s, i + 1, depth - 1);
        lemma_close_paren_idx_bound(s, i + 1, depth + 1);
        lemma_close_paren_idx_bound(s, i + 1, depth);
    }
}

/// Prepends one token to a tokenizing result.
pub open spec fn tok_cons(t: GToken, r: Result<Seq<GToken>, ParseError>) -> Result<
    Seq<GToken>,
    ParseError,
> {
    match r {
        Ok(rest) => Ok(seq![t] + rest),
        Err(e) => Err(e),
    }
}

/// Prepends finished tokens to a tokenizing result.
pub open spec fn tok_prepend(ts: Seq<GToken>, r: Result<Seq<GToken>, ParseError>) -> Result<
    Seq<GToken>,
    ParseError,
> {
    match r {
        Ok(rest) => Ok(ts + rest),
        Err(e) => Err(e),
    }
}

proof fn lemma_prepend_nil(r: Result<Seq<GToken>, ParseError>)
    ensures
        tok_prepend(Seq::<GToken>::empty(), r) == r,
{
    match r {
        Ok(rest) => {
            assert(Seq::<GToken>::empty() + rest =~= rest);
        },
        Err(_) => {},
    }
}

proof fn lemma_prepend_cons(ts: Seq<GToken>, t: GToken, r: Result<Seq<GToken>, ParseError>)
    ensures
        tok_prepend(ts, tok_cons(t, r)) == tok_prepend(ts.push(t), r),
{
    match r {
        Ok(rest) => {
            assert(ts + (seq![t] + rest) =~= ts.push(t) + rest);
        },
        Err(_) => {},
    }
}

/// The tokens produced from position `i` of the pattern on: the single
/// forward pass of the tokenizer, one token at a time.
pub open spec fn spec_tokenize_from(s: Seq<char>, i: int) -> Result<Seq<GToken>, ParseError>
    decreases s.len() - i,
{
    if i < 0 || i >= s.len() {
        Ok(seq![GToken::End])
    } else {
        let c = s[i];
        if c == '*' {
            tok_cons(GToken::Asterisk, spec_tokenize_from(s, i + 1))
        } else if c == '+' {
            tok_cons(GToken::Plus, spec_tokenize_from(s, i + 1))
        } else if c == '?' {
            tok_cons(GToken::QuestionMark, spec_tokenize_from(s, i + 1))
        } else if c == '{' {
            tok_cons(GToken::Open, spec_tokenize_from(s, i + 1))
        } else if c == '}' {
            tok_cons(GToken::Close, spec_tokenize_from(s, i + 1))
        } else if c == '\\' {
            if i + 1 < s.len() {
                tok_cons(GToken::EscapedChar(s[i + 1]), spec_tokenize_from(s, i + 2))
            } else {
                Err(ParseError::UnexpectedEnd)
            }
        } else if c == ':' {
            let n = name_run_len(s, i + 1);
            proof {
                lemma_name_run_len_bound(s, i + 1);
            }
            tok_cons(GToken::Name(s.subrange(i + 1, i + 1 + n)), spec_tokenize_from(s, i + 1 + n))
        } else if c == '(' {
            match close_paren_idx(s, i + 1, 1) {
                Some(j) => {
                    proof {
                        lemma_close_paren_idx_bound(s, i + 1, 1);
                    }
                    tok_cons(GToken::RegExp(s.subrange(i + 1, j)), spec_tokenize_from(s, j + 1))
                },
                None => Err(ParseError::ParenthesesMismatch),
            }
        } else {
            tok_cons(GToken::Char(c), spec_tokenize_from(s, i + 1))
        }
    }
}

/// The token sequence of a whole pattern string.
pub open spec fn spec_tokenize(s: Seq<char>) -> Result<Seq<GToken>, ParseError> {
    spec_tokenize_from(s, 0)
}

/// Whether position `j` of the input holds an ASCII letter.
fn peek_is_letter(input: &str, j: usize, n: usize) -> (b: bool)
    requires
        n == input@.len(),
        j <= n,
    ensures
        b == (j < n && spec_is_ascii_letter(input@[j as int])),
{
    if j < n {
        is_ascii_letter(input.get_char(j))
    } else {
        false
    }
}

/// Scans the pattern string into tokens,
/// <https://urlpattern.spec.whatwg.org/#tokenize>. Fails with
/// `ParenthesesMismatch` on an unmatched `(` and with `UnexpectedEnd` on a
/// backslash at the end of the input.
pub fn tokenize(input: &str, _policy: Policy) -> (r: Result<Vec<Token>, ParseError>)
    ensures
        match r {
            Ok(toks) => spec_tokenize(input@) == Ok::<Seq<GToken>, ParseError>(tview(toks@))
                && tokens_wf(tview(toks@)),
            Err(e) => spec_tokenize(input@) == Err::<Seq<GToken>, ParseError>(e),
        },
{
    let n: usize = input.unicode_len();
    let mut tokens: Vec<Token> = Vec::new();
    let mut i: usize = 0;
    proof {
        assert(tview(tokens@) =~= Seq::<GToken>::empty());
        lemma_prepend_nil(spec_tokenize_from(input@, 0));
    }
    while i < n
        invariant
            n == input@.len(),
            i <= n,
            forall|k: int| 0 <= k < tview(tokens@).len() ==> !tok_is_end(tview(tokens@)[k]),
            tok_prepend(tview(tokens@), spec_tokenize_from(input@, i as int)) == spec_tokenize(
                input@,
            ),
        decreases n - i,
    {
        let ghost i0 = i as int;
        let ghost toks0 = tokens@;
        let ghost pre = tview(tokens@);
        let c = input.get_char(i);
        if c == '*' {
            tokens.push(Token::Asterisk);
            i = i + 1;
            proof {
                assert(tview(tokens@) =~= pre.push(GToken::Asterisk));
                lemma_prepend_cons(pre, GToken::Asterisk, spec_tokenize_from(input@, i0 + 1));
            }
        } else if c == '+' {
            tokens.push(Token::Plus);
            i = i + 1;
            proof {
                assert(tview(tokens@) =~= pre.push(GToken::Plus));
                lemma_prepend_cons(pre, GToken::Plus, spec_tokenize_from(input@, i0 + 1));
            }
        } else if c == '?' {
            tokens.push(Token::QuestionMark);
            i = i + 1;
            proof {
                assert(tview(tokens@) =~= pre.push(GToken::QuestionMark));
                lemma_prepend_cons(pre, GToken::QuestionMark, spec_tokenize_from(input@, i0 + 1));
            }
        } else if c == '{' {
            tokens.push(Token::Open);
            i = i + 1;
            proof {
                assert(tview(tokens@) =~= pre.push(GToken::Open));
                lemma_prepend_cons(pre, GToken::Open, spec_tokenize_from(input@, i0 + 1));
            }
        } else if c == '}' {
            tokens.push(Token::Close);
            i = i + 1;
            proof {
                assert(tview(tokens@) =~= pre.push(GToken::Close));
                lemma_prepend_cons(pre, GToken::Close, spec_tokenize_from(input@, i0 + 1));
            }
        } else if c == '\\' {
            if i + 1 < n {
                let c2 = input.get_char(i + 1);
                tokens.push(Token::EscapedChar(c2));
                i = i + 2;
                proof {
                    assert(tview(tokens@) =~= pre.push(GToken::EscapedChar(c2)));
                    lemma_prepend_cons(
                        pre,
                        GToken::EscapedChar(c2),
                        spec_tokenize_from(input@, i0 + 2),
                    );
                }
            } else {
                proof {
                    assert(spec_tokenize_from(input@, i0) == Err::<Seq<GToken>, ParseError>(
                        ParseError::UnexpectedEnd,
                    ));
                }
                return Err(ParseError::UnexpectedEnd);
            }
        } else if c == ':' {
            let mut name = String::new();
            let mut j: usize = i + 1;
            proof {
                assert(Seq::<char>::empty() =~= input@.subrange(i + 1, i + 1));
            }
            while peek_is_letter(input, j, n)
                invariant
                    n == input@.len(),
                    i + 1 <= j <= n,
                    i < n,
                    name@ == input@.subrange(i + 1, j as int),
                    name_run_len(input@, i + 1) == (j - i - 1) + name_run_len(input@, j as int),
                decreases n - j,
            {
                let c2 = input.get_char(j);
                name.push(c2);
                j = j + 1;
                proof {
                    assert(name@ =~= input@.subrange(i + 1, j as int));
                }
            }
            proof {
                assert(name_run_len(input@, j as int) == 0);
                assert(name_run_len(input@, i0 + 1) == j - i0 - 1);
                assert(name@ == input@.subrange(i0 + 1, i0 + 1 + name_run_len(input@, i0 + 1)));
            }
            let ghost gname = name@;
            tokens.push(Token::Name(name));
            i = j;
            proof {
                assert(tview(tokens@) =~= pre.push(GToken::Name(gname)));
                lemma_prepend_cons(pre, GToken::Name(gname), spec_tokenize_from(input@, i as int));
            }
        } else if c == '(' {
            let mut body = String::new();
            let mut j: usize = i + 1;
            let mut depth: usize = 1;
            let mut closed = false;
            proof {
                assert(Seq::<char>::empty() =~= input@.subrange(i + 1, i + 1));
            }
            while j < n && !closed
                invariant
                    n == input@.len(),
                    i + 1 <= j <= n,
                    i < n,
                    !closed ==> {
                        &&& 1 <= depth <= j - i
                        &&& body@ == input@.subrange(i + 1, j as int)
                        &&& close_paren_idx(input@, j as int, depth as int) == close_paren_idx(
                            input@,
                            i + 1,
                            1,
                        )
                    },
                    closed ==> {
                        &&& j < n
                        &&& close_paren_idx(input@, i + 1, 1) == Some(j as int)
                        &&& body@ == input@.subrange(i + 1, j as int)
                    },
                decreases n - j, (if closed { 0int } else { 1int }),
            {
                let c2 = input.get_char(j);
                if c2 == ')' {
                    if depth == 1 {
                        closed = true;
                    } else {
                        depth = depth - 1;
                        body.push(c2);
                        j = j + 1;
                        proof {
                            assert(body@ =~= input@.subrange(i + 1, j as int));
                        }
                    }
                } else {
                    if c2 == '(' {
                        depth = depth + 1;
                    }
                    body.push(c2);
                    j = j + 1;
                    proof {
                        assert(body@ =~= input@.subrange(i + 1, j as int));
                    }
                }
            }
            if !closed {
                proof {
                    assert(close_paren_idx(input@, n as int, depth as int) is None);
                    assert(spec_tokenize_from(input@, i0) == Err::<Seq<GToken>, ParseError>(
                        ParseError::ParenthesesMismatch,
                    ));
                }
                return Err(ParseError::ParenthesesMismatch);
            }
            let ghost gbody = body@;
            tokens.push(Token::RegExp(body));
            i = j + 1;
            proof {
                assert(tview(tokens@) =~= pre.push(GToken::RegExp(gbody)));
                lemma_prepend_cons(pre, GToken::RegExp(gbody), spec_tokenize_from(input@, i as int));
            }
        } else {
            tokens.push(Token::Char(c));
            i = i + 1;
            proof {
                assert(tview(tokens@) =~= pre.push(GToken::Char(c)));
                lemma_prepend_cons(pre, GToken::Char(c), spec_tokenize_from(input@, i0 + 1));
            }
        }
    }
    proof {
        assert(spec_tokenize_from(input@, n as int) == Ok::<Seq<GToken>, ParseError>(
            seq![GToken::End],
        ));
    }
    let ghost pre = tview(tokens@);
    tokens.push(Token::End);
    proof {
        assert(tview(tokens@) =~= pre.push(GToken::End));
        assert(pre + seq![GToken::End] =~= pre.push(GToken::End));
        assert(tokens_wf(tview(tokens@)));
    }
    Ok(tokens)
}

} // verus!
