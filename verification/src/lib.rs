//! Compiles a compact URL-routing pattern syntax (literal text mixed with
//! named placeholders, wildcards, custom regular-expression groups and
//! modifiers, following the WHATWG URL Pattern grammar) into a single
//! regular-expression string.
//!
//! The pipeline is strictly sequential: the tokenizer turns the pattern
//! string into a token sequence, the parser turns the tokens into a sequence
//! of parts, and the generator renders the parts as one regular expression.

use vstd::prelude::*;
use vstd::string::{StrSliceExecFns, StringExecFns};

pub mod laws;
pub mod parser;
pub mod tokenizer;

use crate::parser::{mod_char, pview, GPart, Modifier, Parser, Part};
use crate::tokenizer::{spec_tokenize, tokenize, Policy};

verus! {

/// The error kinds reported by pattern compilation.
#[derive(Clone, Copy, Debug, PartialEq, Eq, Structural)]
pub enum ParseError {
    /// The input ended in the middle of an escape sequence, or the parser
    /// reached the end of the tokens without the required end marker.
    UnexpectedEnd,
    /// A custom regular-expression group `(...)` is never closed.
    ParenthesesMismatch,
    /// A `{...}` group is never closed with `}`.
    MissingClosingCurly,
    /// Two placeholders in one pattern resolve to the same name.
    DuplicateName,
}

/// Caller configuration, <https://urlpattern.spec.whatwg.org/#options>.
#[derive(Clone, Copy)]
pub struct Options {
    /// The character separating path segments; a segment wildcard matches
    /// one-or-more characters excluding it.
    pub delimiter: Option<char>,
    /// The character that, when immediately preceding a placeholder, is
    /// absorbed as the placeholder's prefix rather than literal text.
    pub prefix: Option<char>,
    /// Reserved for case-insensitive matching; not consumed by the
    /// generator.
    pub ignore_case: bool,
}

impl Default for Options {
    fn default() -> (r: Options)
        ensures
            r.delimiter.is_none(),
            r.prefix.is_none(),
            !r.ignore_case,
    {
        Options { delimiter: None, prefix: None, ignore_case: false }
    }
}

/// Relies on std's `String::push`: appends the character to the end of the
/// string.
pub assume_specification[ String::push ](s: &mut String, ch: char)
    ensures
        final(s)@ == old(s)@.push(ch),
;

/// The regular-expression metacharacters that must be escaped when literal
/// text is embedded in the generated expression,
/// <https://urlpattern.spec.whatwg.org/#escape-a-regexp-string>.
pub open spec fn spec_is_regexp_special(c: char) -> bool {
    c == '.' || c == '+' || c == '*' || c == '?' || c == '^' || c == '$' || c == '{' || c == '}'
        || c == '(' || c == ')' || c == '[' || c == ']' || c == '|' || c == '/' || c == '\\'
}

/// The escaping of one character: metacharacters get a leading backslash.
pub open spec fn spec_escape_char(c: char) -> Seq<char> {
    if spec_is_regexp_special(c) {
        seq!['\\', c]
    } else {
        seq![c]
    }
}

/// The escaping of the characters of `s` from position `i` on.
pub open spec fn spec_escape_from(s: Seq<char>, i: int) -> Seq<char>
    decreases s.len() - i,
{
    if i < 0 || i >= s.len() {
        Seq::<char>::empty()
    } else {
        spec_escape_char(s[i]) + spec_escape_from(s, i + 1)
    }
}

/// The escaping of a whole literal text.
pub open spec fn spec_escape(s: Seq<char>) -> Seq<char> {
    spec_escape_from(s, 0)
}

/// Escapes every regular-expression metacharacter of `str` with a backslash.
pub fn escape_regexp(str: &str) -> (r: String)
    ensures
        r@ == spec_escape(str@),
{
    let n: usize = str.unicode_len();
    let mut r = String::new();
    let mut i: usize = 0;
    proof {
        assert(Seq::<char>::empty() + spec_escape(str@) =~= spec_escape(str@));
    }
    while i < n
        invariant
            n == str@.len(),
            i <= n,
            r@ + spec_escape_from(str@, i as int) == spec_escape(str@),
        decreases n - i,
    {
        let c = str.get_char(i);
        proof {
            assert(spec_escape_from(str@, i as int) == spec_escape_char(str@[i as int])
                + spec_escape_from(str@, i + 1));
        }
        let ghost r0 = r@;
        if is_regexp_special(c) {
            r.push('\\');
            r.push(c);
            proof {
                assert(r@ =~= r0 + spec_escape_char(c));
            }
        } else {
            r.push(c);
            proof {
                assert(r@ =~= r0 + spec_escape_char(c));
            }
        }
        proof {
            assert(r@ + spec_escape_from(str@, i + 1) =~= (r0 + spec_escape_char(c))
                + spec_escape_from(str@, i + 1));
            assert((r0 + spec_escape_char(c)) + spec_escape_from(str@, i + 1) =~= r0
                + spec_escape_from(str@, i as int));
        }
        i = i + 1;
    }
    proof {
        assert(spec_escape_from(str@, n as int) =~= Seq::<char>::empty());
        assert(r@ =~= r@ + spec_escape_from(str@, n as int));
    }
    r
}

/// Whether `c` is one of the metacharacters that escaping must protect.
fn is_regexp_special(c: char) -> (b: bool)
    ensures
        b == spec_is_regexp_special(c),
{
    c == '.' || c == '+' || c == '*' || c == '?' || c == '^' || c == '$' || c == '{' || c == '}'
        || c == '(' || c == ')' || c == '[' || c == ']' || c == '|' || c == '/' || c == '\\'
}

/// The delimiter of the options as literal text: one character, or empty
/// when unset.
pub open spec fn spec_delimiter_chars(opts: Options) -> Seq<char> {
    match opts.delimiter {
        Some(c) => seq![c],
        None => Seq::<char>::empty(),
    }
}

/// The fragment matched by a segment wildcard: one-or-more characters
/// excluding the delimiter,
/// <https://urlpattern.spec.whatwg.org/#generate-a-segment-wildcard-regexp>.
pub open spec fn spec_segment_wildcard_regexp(opts: Options) -> Seq<char> {
    seq!['[', '^'] + spec_escape(spec_delimiter_chars(opts)) + seq![']', '+', '?']
}

/// Builds the segment-wildcard fragment for the configured delimiter.
pub fn generate_segment_wildcard_regexp(opts: &Options) -> (r: String)
    ensures
        r@ == spec_segment_wildcard_regexp(*opts),
{
    let mut delim = String::new();
    match opts.delimiter {
        Some(c) => {
            delim.push(c);
            proof {
                assert(delim@ =~= spec_delimiter_chars(*opts));
            }
        },
        None => {
            proof {
                assert(delim@ =~= spec_delimiter_chars(*opts));
            }
        },
    }
    let escaped = escape_regexp(delim.as_str());
    let mut r = "[^".to_owned();
    r.append(escaped.as_str());
    r.append("]+?");
    proof {
        reveal_strlit("[^");
        reveal_strlit("]+?");
        assert(("[^")@ =~= seq!['[', '^']);
        assert(("]+?")@ =~= seq![']', '+', '?']);
        assert(r@ =~= spec_segment_wildcard_regexp(*opts));
    }
    r
}

/// The fragment matched by a full wildcard: any characters, unbounded.
pub open spec fn spec_full_wildcard_regexp() -> Seq<char> {
    seq!['.', '*']
}

/// The full-wildcard fragment,
/// <https://urlpattern.spec.whatwg.org/#full-wildcard-regexp-value>.
pub fn full_wildcard_regexp() -> (r: &'static str)
    ensures
        r@ == spec_full_wildcard_regexp(),
{
    proof {
        reveal_strlit(".*");
        assert((".*")@ =~= seq!['.', '*']);
    }
    ".*"
}

/// The rendering of a placeholder part given its resolved fragment, its
/// escaped prefix and suffix, and its modifier. With no affixes the
/// fragment is wrapped in a capturing group; with affixes, repetition
/// binds each occurrence's suffix to the next occurrence's prefix inside
/// one capturing group.
pub open spec fn spec_render_placeholder(
    frag: Seq<char>,
    pre: Seq<char>,
    suf: Seq<char>,
    m: Option<Modifier>,
) -> Seq<char> {
    if pre.len() == 0 && suf.len() == 0 {
        match m {
            None => seq!['('] + frag + seq![')'],
            Some(Modifier::Optional) => seq!['('] + frag + seq![')', '?'],
            Some(mm) => seq!['(', '(', '?', ':'] + frag + seq![')', mod_char(mm), ')'],
        }
    } else {
        match m {
            None => seq!['(', '?', ':'] + pre + seq!['('] + frag + seq![')'] + suf + seq![')'],
            Some(Modifier::Optional) => seq!['(', '?', ':'] + pre + seq!['('] + frag + seq![')']
                + suf + seq![')', '?'],
            Some(Modifier::ZeroOrMore) => spec_render_repeat(frag, pre, suf) + seq!['?'],
            Some(Modifier::OneOrMore) => spec_render_repeat(frag, pre, suf),
        }
    }
}

/// The rendering of a repeated placeholder with affixes:
/// `(?:pre((?:frag)(?:suf pre(?:frag))*)suf)`.
pub open spec fn spec_render_repeat(frag: Seq<char>, pre: Seq<char>, suf: Seq<char>) -> Seq<char> {
    seq!['(', '?', ':'] + pre + seq!['(', '(', '?', ':'] + frag + seq![')', '(', '?', ':'] + suf
        + pre + seq!['(', '?', ':'] + frag + seq![')', ')', '*', ')'] + suf + seq![')']
}

/// The rendering of one part: escaped literal text, or a placeholder with
/// its fragment resolved by kind.
pub open spec fn spec_render_part(p: GPart, opts: Options) -> Seq<char> {
    match p {
        GPart::FixedText { value, modifier } => match modifier {
            None => spec_escape(value),
            Some(m) => seq!['(', '?', ':'] + spec_escape(value) + seq![')', mod_char(m)],
        },
        GPart::SegmentWildcard { modifier, prefix, suffix, .. } => spec_render_placeholder(
            spec_segment_wildcard_regexp(opts),
            spec_escape(prefix),
            spec_escape(suffix),
            modifier,
        ),
        GPart::FullWildcard { modifier, prefix, suffix, .. } => spec_render_placeholder(
            spec_full_wildcard_regexp(),
            spec_escape(prefix),
            spec_escape(suffix),
            modifier,
        ),
        GPart::RegExp { value, modifier, prefix, suffix, .. } => spec_render_placeholder(
            value,
            spec_escape(prefix),
            spec_escape(suffix),
            modifier,
        ),
    }
}

/// The renderings of the parts from position `i` on, closed by the `$`
/// anchor.
pub open spec fn spec_generate_from(parts: Seq<GPart>, opts: Options, i: int) -> Seq<char>
    decreases parts.len() - i,
{
    if 0 <= i < parts.len() {
        spec_render_part(parts[i], opts) + spec_generate_from(parts, opts, i + 1)
    } else {
        seq!['$']
    }
}

/// The whole generated expression: `^`, each part's rendering in order,
/// `$`, <https://urlpattern.spec.whatwg.org/#generate-a-regular-expression-and-name-list>.
pub open spec fn spec_generate(parts: Seq<GPart>, opts: Options) -> Seq<char> {
    seq!['^'] + spec_generate_from(parts, opts, 0)
}

/// Renders one placeholder part from its resolved pieces.
fn render_placeholder(frag: &String, pre: &String, suf: &String, modifier: Option<Modifier>) -> (r:
    String)
    ensures
        r@ == spec_render_placeholder(frag@, pre@, suf@, modifier),
{
    proof {
        reveal_strlit("(");
        reveal_strlit(")");
        reveal_strlit(")?");
        reveal_strlit("((?:");
        reveal_strlit("(?:");
        assert(("(")@ =~= seq!['(']);
        assert((")")@ =~= seq![')']);
        assert((")?")@ =~= seq![')', '?']);
        assert(("((?:")@ =~= seq!['(', '(', '?', ':']);
        assert(("(?:")@ =~= seq!['(', '?', ':']);
    }
    let mut r = String::new();
    if pre.as_str().is_empty() && suf.as_str().is_empty() {
        match modifier {
            None => {
                r.append("(");
                r.append(frag.as_str());
                r.append(")");
                proof {
                    assert(r@ =~= spec_render_placeholder(frag@, pre@, suf@, modifier));
                }
            },
            Some(Modifier::Optional) => {
                r.append("(");
                r.append(frag.as_str());
                r.append(")?");
                proof {
                    assert(r@ =~= spec_render_placeholder(frag@, pre@, suf@, modifier));
                }
            },
            Some(m) => {
                r.append("((?:");
                r.append(frag.as_str());
                r.append(")");
                r.push(m.as_char());
                r.append(")");
                proof {
                    assert(r@ =~= spec_render_placeholder(frag@, pre@, suf@, modifier));
                }
            },
        }
    } else {
        match modifier {
            None => {
                r.append("(?:");
                r.append(pre.as_str());
                r.append("(");
                r.append(frag.as_str());
                r.append(")");
                r.append(suf.as_str());
                r.append(")");
                proof {
                    assert(r@ =~= spec_render_placeholder(frag@, pre@, suf@, modifier));
                }
            },
            Some(Modifier::Optional) => {
                r.append("(?:");
                r.append(pre.as_str());
                r.append("(");
                r.append(frag.as_str());
                r.append(")");
                r.append(suf.as_str());
                r.append(")?");
                proof {
                    assert(r@ =~= spec_render_placeholder(frag@, pre@, suf@, modifier));
                }
            },
            Some(Modifier::ZeroOrMore) => {
                append_repeat(&mut r, frag, pre, suf);
                r.append(")?");
                proof {
                    assert(r@ =~= spec_render_repeat(frag@, pre@, suf@) + seq!['?']);
                    assert(r@ == spec_render_placeholder(frag@, pre@, suf@, modifier));
                }
            },
            Some(Modifier::OneOrMore) => {
                append_repeat(&mut r, frag, pre, suf);
                r.append(")");
                proof {
                    assert(r@ =~= spec_render_placeholder(frag@, pre@, suf@, modifier));
                }
            },
        }
    }
    r
}

/// Appends the repeated-placeholder rendering, save its closing `)`.
fn append_repeat(r: &mut String, frag: &String, pre: &String, suf: &String)
    ensures
        final(r)@ == old(r)@ + spec_render_repeat(frag@, pre@, suf@).drop_last(),
{
    proof {
        reveal_strlit("(?:");
        reveal_strlit("((?:");
        reveal_strlit(")(?:");
        reveal_strlit("))*)");
        assert(("(?:")@ =~= seq!['(', '?', ':']);
        assert(("((?:")@ =~= seq!['(', '(', '?', ':']);
        assert((")(?:")@ =~= seq![')', '(', '?', ':']);
        assert(("))*)")@ =~= seq![')', ')', '*', ')']);
    }
    r.append("(?:");
    r.append(pre.as_str());
    r.append("((?:");
    r.append(frag.as_str());
    r.append(")(?:");
    r.append(suf.as_str());
    r.append(pre.as_str());
    r.append("(?:");
    r.append(frag.as_str());
    r.append("))*)");
    r.append(suf.as_str());
    proof {
        assert(final(r)@ =~= old(r)@ + spec_render_repeat(frag@, pre@, suf@).drop_last());
    }
}

/// Renders the part sequence as one regular expression between the `^` and
/// `$` anchors.
pub fn generate_regexp(parts: &Vec<Part>, opts: &Options) -> (r: String)
    ensures
        r@ == spec_generate(pview(parts@), *opts),
{
    let ghost pv = pview(parts@);
    let mut result = "^".to_owned();
    proof {
        reveal_strlit("^");
        assert(result@ =~= seq!['^']);
        assert(result@ + spec_generate_from(pv, *opts, 0) =~= spec_generate(pv, *opts));
    }
    let mut i: usize = 0;
    while i < parts.len()
        invariant
            pv == pview(parts@),
            i <= parts@.len(),
            result@ + spec_generate_from(pv, *opts, i as int) == spec_generate(pv, *opts),
        decreases parts@.len() - i,
    {
        let ghost i0 = i as int;
        let ghost r0 = result@;
        proof {
            assert(pv[i0] == parts@[i0]@);
        }
        let piece: String = match &parts[i] {
            Part::FixedText { value, modifier } => {
                let esc = escape_regexp(value.as_str());
                match modifier {
                    None => esc,
                    Some(m) => {
                        let mut p = "(?:".to_owned();
                        p.append(esc.as_str());
                        p.append(")");
                        p.push(m.as_char());
                        proof {
                            reveal_strlit("(?:");
                            reveal_strlit(")");
                            assert(("(?:")@ =~= seq!['(', '?', ':']);
                            assert((")")@ =~= seq![')']);
                            assert(p@ =~= seq!['(', '?', ':'] + spec_escape(value@) + seq![
                                ')',
                                mod_char(*m),
                            ]);
                        }
                        p
                    },
                }
            },
            Part::SegmentWildcard { modifier, prefix, suffix, .. } => {
                let frag = generate_segment_wildcard_regexp(opts);
                let pre = escape_regexp(prefix.as_str());
                let suf = escape_regexp(suffix.as_str());
                render_placeholder(&frag, &pre, &suf, *modifier)
            },
            Part::FullWildcard { modifier, prefix, suffix, .. } => {
                let frag = full_wildcard_regexp().to_owned();
                let pre = escape_regexp(prefix.as_str());
                let suf = escape_regexp(suffix.as_str());
                render_placeholder(&frag, &pre, &suf, *modifier)
            },
            Part::RegExp { value, modifier, prefix, suffix, .. } => {
                let frag = value.clone();
                let pre = escape_regexp(prefix.as_str());
                let suf = escape_regexp(suffix.as_str());
                render_placeholder(&frag, &pre, &suf, *modifier)
            },
        };
        proof {
            assert(piece@ == spec_render_part(pv[i0], *opts));
        }
        result.append(piece.as_str());
        i = i + 1;
        proof {
            assert(spec_generate_from(pv, *opts, i0) == spec_render_part(pv[i0], *opts)
                + spec_generate_from(pv, *opts, i0 + 1));
            assert(result@ + spec_generate_from(pv, *opts, i0 + 1) =~= r0 + spec_generate_from(
                pv,
                *opts,
                i0,
            ));
        }
    }
    let ghost rb = result@;
    result.push('$');
    proof {
        assert(spec_generate_from(pv, *opts, parts@.len() as int) =~= seq!['$']);
        assert(rb.push('$') =~= rb + spec_generate_from(pv, *opts, parts@.len() as int));
        assert(result@ == spec_generate(pv, *opts));
    }
    result
}

/// The compilation of a whole pattern: tokenize, parse, generate, stopping
/// at the first error.
pub open spec fn spec_compile(s: Seq<char>, opts: Options) -> Result<Seq<char>, ParseError> {
    match spec_tokenize(s) {
        Ok(toks) => match crate::parser::spec_parse(toks, opts) {
            Ok(parts) => Ok(spec_generate(parts, opts)),
            Err(e) => Err(e),
        },
        Err(e) => Err(e),
    }
}

/// Parses a pattern string and returns a regular expression for matching
/// that pattern, or the first error the tokenizer or the parser reports.
pub fn regexp_for_pattern(input: &str, options: &Options) -> (r: Result<String, ParseError>)
    ensures
        match r {
            Ok(s) => spec_compile(input@, *options) == Ok::<Seq<char>, ParseError>(s@),
            Err(e) => spec_compile(input@, *options) == Err::<Seq<char>, ParseError>(e),
        },
{
    let tokens = match tokenize(input, Policy::Strict) {
        Ok(t) => t,
        Err(e) => {
            return Err(e);
        },
    };
    let mut parser = Parser::new(tokens, options);
    proof {
        assert(parser.st() == crate::parser::init_pstate());
        assert(crate::parser::nview(parser.names@).len() == parser.names@.len());
        assert(parser.names@.len() == 0);
    }
    match parser.parse() {
        Ok(()) => {},
        Err(e) => {
            return Err(e);
        },
    }
    Ok(generate_regexp(&parser.parts, options))
}

} // verus!
