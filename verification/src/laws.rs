//! General properties of pattern compilation, stated over the compilation
//! model and proved once for all inputs.

use vstd::prelude::*;

use crate::parser::{
    char_tok_val, esc_tok_val, init_pstate, lemma_text_run_len_bound, name_tok_val, spec_add_part,
    spec_dec_digits, spec_flush, spec_parse, spec_parse_from, spec_regexp_or_wildcard,
    spec_try_modifier, text_chars, text_run_len, tok_at, GPart, GRegexpOrWildcard, Modifier, PState,
};
use crate::tokenizer::{
    close_paren_idx, name_run_len, spec_is_ascii_letter, spec_tokenize_from, GToken,
};
use crate::{spec_compile, spec_escape, spec_segment_wildcard_regexp, Options, ParseError};

verus! {

/// Compilation is a pure function of the pattern and the options: two
/// compilations of the same pattern with identical options yield identical
/// results, errors included.
pub proof fn lemma_compile_deterministic(
    s: Seq<char>,
    opts: Options,
    r1: Result<Seq<char>, ParseError>,
    r2: Result<Seq<char>, ParseError>,
)
    requires
        r1 == spec_compile(s, opts),
        r2 == spec_compile(s, opts),
    ensures
        r1 == r2,
{
}

/// A character with no role in the pattern syntax: it can only become an
/// ordinary char token and then literal text.
pub open spec fn spec_is_plain_literal_char(c: char) -> bool {
    c != '*' && c != '+' && c != '?' && c != '\\' && c != '{' && c != '}' && c != ':' && c != '('
}

/// A character as the char token carrying it.
pub open spec fn chartok(c: char) -> GToken {
    GToken::Char(c)
}

/// The token sequence of a pure literal: one char token per character, then
/// the end marker.
pub open spec fn char_toks(s: Seq<char>) -> Seq<GToken> {
    s.map_values(|c: char| chartok(c)).push(GToken::End)
}

proof fn lemma_tokenize_literal(s: Seq<char>, i: int)
    requires
        0 <= i <= s.len(),
        forall|k: int| i <= k < s.len() ==> spec_is_plain_literal_char(#[trigger] s[k]),
    ensures
        spec_tokenize_from(s, i) == Ok::<Seq<GToken>, ParseError>(
            s.skip(i).map_values(|c: char| chartok(c)).push(GToken::End),
        ),
    decreases s.len() - i,
{
    if i < s.len() {
        lemma_tokenize_literal(s, i + 1);
        let a = s.skip(i + 1).map_values(|c: char| chartok(c));
        assert(a.len() == s.len() - i - 1);
        let ap = a.push(GToken::End);
        assert(ap.len() == s.len() - i);
        let lhs = seq![chartok(s[i])] + ap;
        assert(lhs.len() == s.len() - i + 1);
        assert(chartok(s[i]) == GToken::Char(s[i]));
        let b = s.skip(i).map_values(|c: char| chartok(c));
        assert(b.len() == s.len() - i);
        let rhs = b.push(GToken::End);
        assert(lhs.len() == rhs.len());
        assert forall|k: int| 0 <= k < lhs.len() implies lhs[k] == rhs[k] by {
            if k == 0 {
                assert(s.skip(i)[0] == s[i]);
            } else if k < lhs.len() - 1 {
                assert(s.skip(i + 1)[k - 1] == s[i + k]);
                assert(s.skip(i)[k] == s[i + k]);
            }
        }
        assert(lhs =~= rhs);
    } else {
        assert(seq![GToken::End] =~= s.skip(i).map_values(|c: char| chartok(c)).push(
            GToken::End,
        ));
    }
}

proof fn lemma_char_toks_text(s: Seq<char>, i: int)
    requires
        0 <= i <= s.len(),
    ensures
        text_run_len(char_toks(s), i) == s.len() - i,
        text_chars(char_toks(s), i) == s.skip(i),
    decreases s.len() - i,
{
    let toks = char_toks(s);
    if i < s.len() {
        assert(toks[i] == GToken::Char(s[i]));
        lemma_char_toks_text(s, i + 1);
        assert(seq![s[i]] + s.skip(i + 1) =~= s.skip(i));
    } else {
        assert(toks[i] == GToken::End);
        assert(text_chars(toks, i) =~= s.skip(i));
    }
}

proof fn lemma_parse_all_chars(toks: Seq<GToken>, opts: Options, i: int, st: PState)
    requires
        0 <= i <= toks.len() - 1,
        toks[toks.len() - 1] == GToken::End,
        forall|k: int| 0 <= k < toks.len() - 1 ==> #[trigger] toks[k] is Char,
    ensures
        spec_parse_from(toks, opts, i, st) == Ok::<Seq<GPart>, ParseError>(
            spec_flush(PState { pending: st.pending + text_chars(toks, i), ..st }).parts,
        ),
    decreases toks.len() - i,
{
    if i < toks.len() - 1 {
        let c = char_tok_of(toks[i]);
        lemma_parse_all_chars(toks, opts, i + 1, PState { pending: st.pending.push(c), ..st });
        assert(text_chars(toks, i) == seq![c] + text_chars(toks, i + 1));
        assert(st.pending.push(c) + text_chars(toks, i + 1) =~= st.pending + text_chars(toks, i));
        assert(PState { pending: st.pending.push(c) + text_chars(toks, i + 1), ..st } =~~= PState {
            pending: st.pending + text_chars(toks, i),
            ..st
        });
    } else {
        assert(tok_at(toks, i) == GToken::End);
        assert(text_chars(toks, i) =~= Seq::<char>::empty());
        assert(st.pending + text_chars(toks, i) =~= st.pending);
        assert(PState { pending: st.pending + text_chars(toks, i), ..st } =~~= st);
    }
}

/// The character of a char token.
spec fn char_tok_of(t: GToken) -> char {
    match t {
        GToken::Char(c) => c,
        _ => ' ',
    }
}

/// A pattern containing only literal characters — none of the syntax
/// characters `*`, `+`, `?`, `\`, `{`, `}`, `:`, `(` — compiles, under
/// every delimiter and prefix configuration, to `^`, the escaped literal,
/// `$`.
pub proof fn lemma_literal_pattern(s: Seq<char>, opts: Options)
    requires
        forall|k: int| 0 <= k < s.len() ==> spec_is_plain_literal_char(#[trigger] s[k]),
    ensures
        spec_compile(s, opts) == Ok::<Seq<char>, ParseError>(
            seq!['^'] + spec_escape(s) + seq!['$'],
        ),
{
    lemma_tokenize_literal(s, 0);
    let toks = char_toks(s);
    assert(s.skip(0) =~= s);
    assert(s.skip(0).map_values(|c: char| chartok(c)).push(GToken::End) =~= toks);
    assert(toks[toks.len() - 1] == GToken::End);
    assert(forall|k: int| 0 <= k < toks.len() - 1 ==> #[trigger] toks[k] is Char);
    lemma_parse_all_chars(toks, opts, 0, init_pstate());
    lemma_char_toks_text(s, 0);
    assert(Seq::<char>::empty() + s.skip(0) =~= s);
    let stf = spec_flush(PState { pending: s, ..init_pstate() });
    assert(PState { pending: init_pstate().pending + text_chars(toks, 0), ..init_pstate() } =~~= PState {
        pending: s,
        ..init_pstate()
    });
    if s.len() == 0 {
        assert(stf.parts =~= Seq::<GPart>::empty());
        assert(crate::spec_generate(stf.parts, opts) =~= seq!['^'] + spec_escape(s) + seq!['$']);
    } else {
        assert(stf.parts =~= seq![GPart::FixedText { value: s, modifier: None }]);
        let parts = stf.parts;
        assert(crate::spec_generate_from(parts, opts, 1) =~= seq!['$']);
        assert(crate::spec_generate_from(parts, opts, 0) == crate::spec_render_part(
            parts[0],
            opts,
        ) + seq!['$']);
        assert(crate::spec_render_part(parts[0], opts) == spec_escape(s));
        assert(seq!['^'] + (spec_escape(s) + seq!['$']) =~= seq!['^'] + spec_escape(s)
            + seq!['$']);
    }
}

proof fn lemma_name_run_until(s: Seq<char>, i: int, j: int)
    requires
        0 <= i <= j <= s.len(),
        forall|k: int| i <= k < j ==> spec_is_ascii_letter(#[trigger] s[k]),
        j == s.len() || !spec_is_ascii_letter(s[j]),
    ensures
        name_run_len(s, i) == j - i,
    decreases j - i,
{
    if i < j {
        lemma_name_run_until(s, i + 1, j);
    }
}

/// A bare named placeholder — `:` followed by one-or-more ASCII letters
/// and nothing else — compiles to the segment-wildcard fragment wrapped in
/// one capturing group between the anchors. With `delimiter = '/'` the
/// fragment is `[^\/]+?`.
pub proof fn lemma_named_placeholder(name: Seq<char>, opts: Options)
    requires
        name.len() > 0,
        forall|k: int| 0 <= k < name.len() ==> spec_is_ascii_letter(#[trigger] name[k]),
    ensures
        spec_compile(seq![':'] + name, opts) == Ok::<Seq<char>, ParseError>(
            seq!['^', '('] + spec_segment_wildcard_regexp(opts) + seq![')', '$'],
        ),
{
    let s = seq![':'] + name;
    let n = name.len() as int;
    lemma_name_run_until(s, 1, s.len() as int);
    assert(name_run_len(s, 1) == n);
    assert(s.subrange(1, 1 + n) =~= name);
    assert(spec_tokenize_from(s, 1 + n) == Ok::<Seq<GToken>, ParseError>(seq![GToken::End]));
    let toks = seq![GToken::Name(name), GToken::End];
    assert(seq![GToken::Name(name)] + seq![GToken::End] =~= toks);
    assert(spec_tokenize_from(s, 0) == Ok::<Seq<GToken>, ParseError>(toks));
    let part = GPart::SegmentWildcard {
        name,
        modifier: None,
        prefix: Seq::<char>::empty(),
        suffix: Seq::<char>::empty(),
    };
    let st2 = PState {
        pending: Seq::<char>::empty(),
        parts: seq![part],
        names: seq![name],
        next_ordinal: 0,
    };
    assert(!init_pstate().names.contains(name));
    assert(spec_flush(init_pstate()) == init_pstate());
    assert(spec_add_part(
        init_pstate(),
        Seq::<char>::empty(),
        Some(name),
        GRegexpOrWildcard::Absent,
        Seq::<char>::empty(),
        None,
    ) == Ok::<PState, ParseError>(st2)) by {
        assert(init_pstate().parts.push(part) =~= seq![part]);
        assert(init_pstate().names.push(name) =~= seq![name]);
        assert(spec_add_part(
            init_pstate(),
            Seq::<char>::empty(),
            Some(name),
            GRegexpOrWildcard::Absent,
            Seq::<char>::empty(),
            None,
        )->Ok_0 =~~= st2);
    }
    assert(spec_parse_from(toks, opts, 0, init_pstate()) == spec_parse_from(toks, opts, 1, st2));
    assert(spec_flush(st2) == st2);
    assert(spec_parse_from(toks, opts, 1, st2) == Ok::<Seq<GPart>, ParseError>(seq![part]));
    let frag = spec_segment_wildcard_regexp(opts);
    assert(spec_escape(Seq::<char>::empty()) =~= Seq::<char>::empty());
    assert(crate::spec_render_part(part, opts) == seq!['('] + frag + seq![')']);
    assert(crate::spec_generate_from(seq![part], opts, 1) =~= seq!['$']);
    assert(seq!['^'] + (seq!['('] + frag + seq![')'] + seq!['$']) =~= seq!['^', '('] + frag
        + seq![')', '$']);
}

/// Two placeholders that resolve to the same name are rejected: a pattern
/// of the same named placeholder twice fails with `DuplicateName`, under
/// every option configuration.
pub proof fn lemma_duplicate_name(name: Seq<char>, opts: Options)
    requires
        name.len() > 0,
        forall|k: int| 0 <= k < name.len() ==> spec_is_ascii_letter(#[trigger] name[k]),
    ensures
        spec_compile(seq![':'] + name + seq![':'] + name, opts) == Err::<Seq<char>, ParseError>(
            ParseError::DuplicateName,
        ),
{
    let s = seq![':'] + name + seq![':'] + name;
    let n = name.len() as int;
    assert(!spec_is_ascii_letter(':'));
    assert(s[1 + n] == ':');
    lemma_name_run_until(s, 1, 1 + n);
    assert(s.subrange(1, 1 + n) =~= name);
    lemma_name_run_until(s, 2 + n, s.len() as int);
    assert(s.subrange(2 + n, 2 + n + n) =~= name);
    assert(spec_tokenize_from(s, 2 + n + n) == Ok::<Seq<GToken>, ParseError>(
        seq![GToken::End],
    ));
    assert(s[1 + n] == ':');
    assert(spec_tokenize_from(s, 1 + n) == Ok::<Seq<GToken>, ParseError>(
        seq![GToken::Name(name)] + seq![GToken::End],
    ));
    let toks = seq![GToken::Name(name), GToken::Name(name), GToken::End];
    assert(seq![GToken::Name(name)] + (seq![GToken::Name(name)] + seq![GToken::End]) =~= toks);
    assert(spec_tokenize_from(s, 0) == Ok::<Seq<GToken>, ParseError>(toks));
    let part = GPart::SegmentWildcard {
        name,
        modifier: None,
        prefix: Seq::<char>::empty(),
        suffix: Seq::<char>::empty(),
    };
    let st2 = PState {
        pending: Seq::<char>::empty(),
        parts: seq![part],
        names: seq![name],
        next_ordinal: 0,
    };
    assert(!init_pstate().names.contains(name));
    assert(spec_flush(init_pstate()) == init_pstate());
    assert(spec_add_part(
        init_pstate(),
        Seq::<char>::empty(),
        Some(name),
        GRegexpOrWildcard::Absent,
        Seq::<char>::empty(),
        None,
    ) == Ok::<PState, ParseError>(st2)) by {
        assert(init_pstate().parts.push(part) =~= seq![part]);
        assert(init_pstate().names.push(name) =~= seq![name]);
        assert(spec_add_part(
            init_pstate(),
            Seq::<char>::empty(),
            Some(name),
            GRegexpOrWildcard::Absent,
            Seq::<char>::empty(),
            None,
        )->Ok_0 =~~= st2);
    }
    assert(spec_parse_from(toks, opts, 0, init_pstate()) == spec_parse_from(toks, opts, 1, st2));
    assert(st2.names.contains(name)) by {
        assert(st2.names[0] == name);
    }
    assert(spec_flush(st2) == st2);
    assert(spec_add_part(
        st2,
        Seq::<char>::empty(),
        Some(name),
        GRegexpOrWildcard::Absent,
        Seq::<char>::empty(),
        None,
    ) == Err::<PState, ParseError>(ParseError::DuplicateName));
    assert(spec_parse_from(toks, opts, 1, st2) == Err::<Seq<GPart>, ParseError>(
        ParseError::DuplicateName,
    ));
}

proof fn lemma_no_close(s: Seq<char>, i: int, depth: int)
    requires
        forall|k: int| i <= k < s.len() ==> s[k] != ')',
    ensures
        close_paren_idx(s, i, depth) is None,
    decreases s.len() - i,
{
    if 0 <= i < s.len() {
        lemma_no_close(s, i + 1, depth + 1);
        lemma_no_close(s, i + 1, depth);
    }
}

/// A custom-regex group that is never closed — `(` followed by text with
/// no `)` at all — fails with `ParenthesesMismatch`, under every option
/// configuration.
pub proof fn lemma_unterminated_group(t: Seq<char>, opts: Options)
    requires
        forall|k: int| 0 <= k < t.len() ==> t[k] != ')',
    ensures
        spec_compile(seq!['('] + t, opts) == Err::<Seq<char>, ParseError>(
            ParseError::ParenthesesMismatch,
        ),
{
    let s = seq!['('] + t;
    assert(forall|k: int| 1 <= k < s.len() ==> s[k] != ')');
    lemma_no_close(s, 1, 1);
}

/// A brace group that is never closed — `{` followed by plain literal
/// characters with no `}` — fails with `MissingClosingCurly`, under every
/// option configuration.
pub proof fn lemma_unterminated_brace(t: Seq<char>, opts: Options)
    requires
        forall|k: int| 0 <= k < t.len() ==> spec_is_plain_literal_char(#[trigger] t[k]),
    ensures
        spec_compile(seq!['{'] + t, opts) == Err::<Seq<char>, ParseError>(
            ParseError::MissingClosingCurly,
        ),
{
    let s = seq!['{'] + t;
    assert(forall|k: int| 1 <= k < s.len() ==> spec_is_plain_literal_char(#[trigger] s[k]));
    lemma_tokenize_literal(s, 1);
    assert(s.skip(1) =~= t);
    let toks = seq![GToken::Open] + char_toks(t);
    assert(s.skip(1).map_values(|c: char| chartok(c)).push(GToken::End) =~= char_toks(t));
    assert(seq![GToken::Open] + char_toks(t) =~= toks);
    assert(spec_tokenize_from(s, 0) == Ok::<Seq<GToken>, ParseError>(toks));
    let n = t.len() as int;
    assert(toks.len() == n + 2);
    assert(toks[0] == GToken::Open);
    assert(forall|k: int| 0 <= k < t.len() ==> char_toks(t)[k] == GToken::Char(#[trigger] t[k]));
    assert(forall|k: int| 1 <= k < n + 1 ==> toks[k] == GToken::Char(#[trigger] t[k - 1]));
    assert(toks[n + 1] == GToken::End);
    lemma_text_run_all(toks, 1, n + 1);
    assert(text_run_len(toks, n + 1) == 0);
    assert(tok_at(toks, n + 1) is End);
    assert(spec_parse_from(toks, opts, 0, init_pstate()) == Err::<Seq<GPart>, ParseError>(
        ParseError::MissingClosingCurly,
    ));
}

proof fn lemma_text_run_all(toks: Seq<GToken>, i: int, j: int)
    requires
        0 <= i <= j <= toks.len(),
        forall|k: int| i <= k < j ==> crate::parser::text_tok_val(#[trigger] toks[k]) is Some,
        j == toks.len() || crate::parser::text_tok_val(toks[j]) is None,
    ensures
        text_run_len(toks, i) == j - i,
    decreases j - i,
{
    if i < j {
        lemma_text_run_all(toks, i + 1, j);
    }
}


/// The name of a placeholder-bearing part, where the part carries one.
pub open spec fn part_name_opt(p: GPart) -> Option<Seq<char>> {
    match p {
        GPart::FixedText { .. } => None,
        GPart::RegExp { name, .. } => Some(name),
        GPart::SegmentWildcard { name, .. } => Some(name),
        GPart::FullWildcard { name, .. } => Some(name),
    }
}

/// The names of the placeholder-bearing parts, in emission order.
pub open spec fn placeholder_names(parts: Seq<GPart>) -> Seq<Seq<char>>
    decreases parts.len(),
{
    if parts.len() == 0 {
        Seq::<Seq<char>>::empty()
    } else {
        placeholder_names(parts.drop_last()) + match part_name_opt(parts.last()) {
            Some(n) => seq![n],
            None => Seq::<Seq<char>>::empty(),
        }
    }
}

proof fn lemma_pnames_push(parts: Seq<GPart>, p: GPart)
    ensures
        placeholder_names(parts.push(p)) == placeholder_names(parts) + (match part_name_opt(p) {
            Some(n) => seq![n],
            None => Seq::<Seq<char>>::empty(),
        }),
{
    assert(parts.push(p).drop_last() =~= parts);
    assert(parts.push(p).last() == p);
}

proof fn lemma_flush_names(st: PState)
    ensures
        placeholder_names(spec_flush(st).parts) == placeholder_names(st.parts),
        spec_flush(st).names == st.names,
{
    if st.pending.len() != 0 {
        lemma_pnames_push(st.parts, GPart::FixedText { value: st.pending, modifier: None });
        assert(placeholder_names(st.parts) + Seq::<Seq<char>>::empty() =~= placeholder_names(
            st.parts,
        ));
    }
}

proof fn lemma_add_part_names(
    st: PState,
    prefix: Seq<char>,
    name: Option<Seq<char>>,
    rw: GRegexpOrWildcard,
    suffix: Seq<char>,
    m: Option<Modifier>,
    st2: PState,
)
    requires
        spec_add_part(st, prefix, name, rw, suffix, m) == Ok::<PState, ParseError>(st2),
        placeholder_names(st.parts) == st.names,
        st.names.no_duplicates(),
    ensures
        placeholder_names(st2.parts) == st2.names,
        st2.names.no_duplicates(),
{
    lemma_flush_names(st);
    let st1 = spec_flush(st);
    if name is None && rw is Absent && m is None {
    } else if name is None && rw is Absent {
        if prefix.len() != 0 {
            lemma_pnames_push(st1.parts, GPart::FixedText { value: prefix, modifier: m });
            assert(placeholder_names(st1.parts) + Seq::<Seq<char>>::empty() =~= placeholder_names(
                st1.parts,
            ));
        }
    } else {
        let pname = if name is Some {
            name->0
        } else {
            spec_dec_digits(st1.next_ordinal)
        };
        assert(!st1.names.contains(pname));
        let part = match rw {
            GRegexpOrWildcard::Absent => GPart::SegmentWildcard { name: pname, modifier: m, prefix, suffix },
            GRegexpOrWildcard::Asterisk => GPart::FullWildcard { name: pname, modifier: m, prefix, suffix },
            GRegexpOrWildcard::Regexp(value) => GPart::RegExp { name: pname, value, modifier: m, prefix, suffix },
        };
        assert(part_name_opt(part) == Some(pname));
        assert(st2.parts == st1.parts.push(part));
        lemma_pnames_push(st1.parts, part);
        assert(st1.names + seq![pname] =~= st1.names.push(pname));
        assert forall|a: int, b: int|
            0 <= a < st2.names.len() && 0 <= b < st2.names.len() && a != b implies st2.names[a]
            != st2.names[b] by {
            if a < st1.names.len() && b < st1.names.len() {
            } else if b == st1.names.len() {
                if st1.names[a] == pname {
                    assert(st1.names.contains(pname));
                }
            } else {
                if st1.names[b] == pname {
                    assert(st1.names.contains(pname));
                }
            }
        }
    }
}

proof fn lemma_parse_from_names_unique(
    toks: Seq<GToken>,
    opts: Options,
    i: int,
    st: PState,
    parts: Seq<GPart>,
)
    requires
        spec_parse_from(toks, opts, i, st) == Ok::<Seq<GPart>, ParseError>(parts),
        placeholder_names(st.parts) == st.names,
        st.names.no_duplicates(),
    ensures
        placeholder_names(parts).no_duplicates(),
    decreases toks.len() - i,
{
    let t0 = tok_at(toks, i);
    let char_tok = char_tok_val(t0);
    let i1 = if char_tok is Some {
        i + 1
    } else {
        i
    };
    let name_tok = name_tok_val(tok_at(toks, i1));
    let i2 = if name_tok is Some {
        i1 + 1
    } else {
        i1
    };
    let rw = spec_regexp_or_wildcard(tok_at(toks, i2), name_tok is Some);
    let i3 = if rw is Absent {
        i2
    } else {
        i2 + 1
    };
    if name_tok is Some || !(rw is Absent) {
        let keep = char_tok is None || opts.prefix == Some(char_tok->0);
        let pend = if char_tok is Some && !keep {
            st.pending.push(char_tok->0)
        } else {
            st.pending
        };
        let prefix = if char_tok is Some && keep {
            seq![char_tok->0]
        } else {
            Seq::<char>::empty()
        };
        let stp = PState { pending: pend, ..st };
        let st1 = spec_flush(stp);
        let m = spec_try_modifier(toks, i3);
        lemma_flush_names(stp);
        match spec_add_part(st1, prefix, name_tok, rw, Seq::<char>::empty(), m.0) {
            Ok(st2) => {
                lemma_add_part_names(st1, prefix, name_tok, rw, Seq::<char>::empty(), m.0, st2);
                lemma_parse_from_names_unique(toks, opts, m.1, st2, parts);
            },
            Err(_) => {
                assert(false);
            },
        }
    } else if char_tok is Some {
        lemma_parse_from_names_unique(
            toks,
            opts,
            i + 1,
            PState { pending: st.pending.push(char_tok->0), ..st },
            parts,
        );
    } else if esc_tok_val(t0) is Some {
        lemma_parse_from_names_unique(
            toks,
            opts,
            i + 1,
            PState { pending: st.pending.push(esc_tok_val(t0)->0), ..st },
            parts,
        );
    } else if t0 is Open {
        let p_end = i + 1 + text_run_len(toks, i + 1);
        let gprefix = text_chars(toks, i + 1);
        let gname = name_tok_val(tok_at(toks, p_end));
        let j1 = if gname is Some {
            p_end + 1
        } else {
            p_end
        };
        let grw = spec_regexp_or_wildcard(tok_at(toks, j1), gname is Some);
        let j2 = if grw is Absent {
            j1
        } else {
            j1 + 1
        };
        let s_end = j2 + text_run_len(toks, j2);
        let gsuffix = text_chars(toks, j2);
        lemma_text_run_len_bound(toks, i + 1);
        lemma_text_run_len_bound(toks, j2);
        if tok_at(toks, s_end) is Close {
            let m = spec_try_modifier(toks, s_end + 1);
            match spec_add_part(st, gprefix, gname, grw, gsuffix, m.0) {
                Ok(st2) => {
                    lemma_add_part_names(st, gprefix, gname, grw, gsuffix, m.0, st2);
                    lemma_parse_from_names_unique(toks, opts, m.1, st2, parts);
                },
                Err(_) => {
                    assert(false);
                },
            }
        } else {
            assert(false);
        }
    } else {
        if t0 is End {
            lemma_flush_names(st);
            assert(parts == spec_flush(st).parts);
        } else {
            assert(false);
        }
    }
}

/// Every placeholder-bearing part of a successful parse carries a globally
/// unique name within that compile: the names of the emitted placeholders,
/// in order, hold no duplicate.
pub proof fn lemma_placeholder_names_unique(toks: Seq<GToken>, opts: Options, parts: Seq<GPart>)
    requires
        spec_parse(toks, opts) == Ok::<Seq<GPart>, ParseError>(parts),
    ensures
        placeholder_names(parts).no_duplicates(),
{
    assert(placeholder_names(init_pstate().parts) =~= init_pstate().names);
    lemma_parse_from_names_unique(toks, opts, 0, init_pstate(), parts);
}

} // verus!
