//! The tokenizer: turns a configuration source string into a sequence of
//! syntax tokens.
//!
//! The grammar is closed: whitespace-separated atoms (words, unsigned
//! numbers, double-quoted strings), parenthesized and bracketed groups
//! nesting to arbitrary depth, and nothing else. Words matching one of the
//! nine reserved spellings become keywords at tokenization time.
//!
//! The mathematical model is a pair of left folds: a character-level scan
//! that produces a flat stream of delimiters and atoms (`spec_lex_chars`),
//! and a nesting pass that matches delimiters into a token tree
//! (`spec_nest_tokens`). `spec_parse` is their composition; the executable
//! `parse` returns exactly what `spec_parse` describes.

use vstd::prelude::*;

use crate::token::Literal;
use crate::token::SpecToken;
use crate::token::Token;
use crate::token::spec_keyword_of;
use crate::token::tokens_view;

verus! {

broadcast use vstd::seq::axiom_seq_index_decreases, vstd::std_specs::vec::axiom_vec_decreases_to_view;

/// A tokenizer failure: the grammar rejected the input.
#[derive(Clone, Copy, Debug, PartialEq, Eq, Structural)]
pub enum SyntaxError {
    /// A closing delimiter without a matching opener, a mismatched closer,
    /// or an unclosed group at the end of the input.
    UnbalancedDelimiter,
    /// A double-quoted string with no closing quote before the end of the
    /// input.
    UnterminatedText,
    /// A numeric literal that does not fit in an unsigned 64-bit integer.
    NumberOverflow,
}

/// Marker for the hand-written grammar implementation of this module.
#[derive(Debug)]
pub struct CoreLangParser;

/// One element of the flat token stream produced by the character scan,
/// before delimiters are matched into groups.
#[derive(Debug, PartialEq, Eq)]
pub enum FlatToken {
    /// `(`
    Open,
    /// `)`
    Close,
    /// `[`
    OpenSquare,
    /// `]`
    CloseSquare,
    Word(String),
    Number(u64),
    Text(String),
    Keyword(Literal),
}

/// The mathematical shape of a `FlatToken`.
pub enum SpecFlatToken {
    Open,
    Close,
    OpenSquare,
    CloseSquare,
    Word(Seq<char>),
    Number(u64),
    Text(Seq<char>),
    Keyword(Literal),
}

impl View for FlatToken {
    type V = SpecFlatToken;

    open spec fn view(&self) -> SpecFlatToken {
        match self {
            FlatToken::Open => SpecFlatToken::Open,
            FlatToken::Close => SpecFlatToken::Close,
            FlatToken::OpenSquare => SpecFlatToken::OpenSquare,
            FlatToken::CloseSquare => SpecFlatToken::CloseSquare,
            FlatToken::Word(w) => SpecFlatToken::Word(w@),
            FlatToken::Number(n) => SpecFlatToken::Number(*n),
            FlatToken::Text(s) => SpecFlatToken::Text(s@),
            FlatToken::Keyword(k) => SpecFlatToken::Keyword(*k),
        }
    }
}

/// The views of a sequence of flat tokens, in order.
pub open spec fn flat_tokens_view(ts: Seq<FlatToken>) -> Seq<SpecFlatToken> {
    Seq::new(ts.len(), |i: int| ts[i]@)
}

/// Whitespace is insignificant except as a token separator.
pub open spec fn is_whitespace_char(c: char) -> bool {
    c == ' ' || c == '\n' || c == '\t' || c == '\r'
}

/// The five structural characters of the grammar.
pub open spec fn is_delimiter_char(c: char) -> bool {
    c == '(' || c == ')' || c == '[' || c == ']' || c == '"'
}

/// Any character that may stand inside an unquoted atom.
pub open spec fn is_atom_char(c: char) -> bool {
    !is_whitespace_char(c) && !is_delimiter_char(c)
}

/// An ASCII decimal digit.
pub open spec fn is_digit_char(c: char) -> bool {
    48 <= c as u32 && c as u32 <= 57
}

pub open spec fn digit_val(c: char) -> nat {
    (c as u32 - 48) as nat
}

pub open spec fn all_digits(s: Seq<char>) -> bool {
    forall|i: int| 0 <= i < s.len() ==> is_digit_char(#[trigger] s[i])
}

/// The unbounded value of a digit string read in base ten.
pub open spec fn digits_value(s: Seq<char>) -> nat
    decreases s.len(),
{
    if s.len() == 0 {
        0
    } else {
        digits_value(s.drop_last()) * 10 + digit_val(s.last())
    }
}

/// What a finished atom stands for: a number if every character is a digit
/// (rejected if it exceeds the unsigned 64-bit range), otherwise a keyword
/// if the spelling is reserved, otherwise a word.
pub open spec fn spec_classify(acc: Seq<char>) -> Result<SpecFlatToken, SyntaxError> {
    if acc.len() > 0 && all_digits(acc) {
        if digits_value(acc) <= u64::MAX as nat {
            Ok(SpecFlatToken::Number(digits_value(acc) as u64))
        } else {
            Err(SyntaxError::NumberOverflow)
        }
    } else {
        match spec_keyword_of(acc) {
            Some(k) => Ok(SpecFlatToken::Keyword(k)),
            None => Ok(SpecFlatToken::Word(acc)),
        }
    }
}

/// Where the character scan stands: between tokens, inside an unquoted
/// atom, or inside a double-quoted string.
#[verifier::ext_equal]
pub enum SpecLexMode {
    Normal,
    InAtom(Seq<char>),
    InText(Seq<char>),
}

/// The full state of the character scan: the mode, the flat tokens emitted
/// so far, and the first error met, if any (errors are sticky).
#[verifier::ext_equal]
pub struct SpecLexState {
    pub mode: SpecLexMode,
    pub out: Seq<SpecFlatToken>,
    pub err: Option<SyntaxError>,
}

pub open spec fn spec_lex_init() -> SpecLexState {
    SpecLexState { mode: SpecLexMode::Normal, out: Seq::empty(), err: None }
}

/// The effect of one character met between tokens, given the output so far.
pub open spec fn spec_normal_char(out: Seq<SpecFlatToken>, c: char) -> SpecLexState {
    if is_whitespace_char(c) {
        SpecLexState { mode: SpecLexMode::Normal, out, err: None }
    } else if c == '(' {
        SpecLexState { mode: SpecLexMode::Normal, out: out.push(SpecFlatToken::Open), err: None }
    } else if c == ')' {
        SpecLexState { mode: SpecLexMode::Normal, out: out.push(SpecFlatToken::Close), err: None }
    } else if c == '[' {
        SpecLexState {
            mode: SpecLexMode::Normal,
            out: out.push(SpecFlatToken::OpenSquare),
            err: None,
        }
    } else if c == ']' {
        SpecLexState {
            mode: SpecLexMode::Normal,
            out: out.push(SpecFlatToken::CloseSquare),
            err: None,
        }
    } else if c == '"' {
        SpecLexState { mode: SpecLexMode::InText(Seq::empty()), out, err: None }
    } else {
        SpecLexState { mode: SpecLexMode::InAtom(seq![c]), out, err: None }
    }
}

/// One step of the character scan.
pub open spec fn spec_lex_step(st: SpecLexState, c: char) -> SpecLexState {
    if st.err is Some {
        st
    } else {
        match st.mode {
            SpecLexMode::Normal => spec_normal_char(st.out, c),
            SpecLexMode::InAtom(acc) => {
                if is_atom_char(c) {
                    SpecLexState { mode: SpecLexMode::InAtom(acc.push(c)), out: st.out, err: None }
                } else {
                    match spec_classify(acc) {
                        Ok(t) => spec_normal_char(st.out.push(t), c),
                        Err(e) => SpecLexState { mode: st.mode, out: st.out, err: Some(e) },
                    }
                }
            },
            SpecLexMode::InText(acc) => {
                if c == '"' {
                    SpecLexState {
                        mode: SpecLexMode::Normal,
                        out: st.out.push(SpecFlatToken::Text(acc)),
                        err: None,
                    }
                } else {
                    SpecLexState { mode: SpecLexMode::InText(acc.push(c)), out: st.out, err: None }
                }
            },
        }
    }
}

/// The character scan as a left fold over the whole input.
pub open spec fn spec_lex_chars(s: Seq<char>) -> SpecLexState
    decreases s.len(),
{
    if s.len() == 0 {
        spec_lex_init()
    } else {
        spec_lex_step(spec_lex_chars(s.drop_last()), s.last())
    }
}

/// The flat token stream of a whole input: the fold's output, with the
/// final atom closed off, or the first failure.
pub open spec fn spec_flat_tokens(s: Seq<char>) -> Result<Seq<SpecFlatToken>, SyntaxError> {
    let st = spec_lex_chars(s);
    match st.err {
        Some(e) => Err(e),
        None => match st.mode {
            SpecLexMode::Normal => Ok(st.out),
            SpecLexMode::InAtom(acc) => match spec_classify(acc) {
                Ok(t) => Ok(st.out.push(t)),
                Err(e) => Err(e),
            },
            SpecLexMode::InText(_) => Err(SyntaxError::UnterminatedText),
        },
    }
}

/// One suspended group of the nesting pass: whether it was opened with a
/// bracket, and the tokens of the enclosing level collected so far.
#[verifier::ext_equal]
pub struct SpecNestFrame {
    pub bracket: bool,
    pub items: Seq<SpecToken>,
}

/// The state of the nesting pass: the open groups, the tokens of the
/// current level, and whether a delimiter failed to match.
#[verifier::ext_equal]
pub struct SpecNestState {
    pub stack: Seq<SpecNestFrame>,
    pub cur: Seq<SpecToken>,
    pub err: bool,
}

pub open spec fn spec_nest_init() -> SpecNestState {
    SpecNestState { stack: Seq::empty(), cur: Seq::empty(), err: false }
}

/// One step of the nesting pass.
pub open spec fn spec_nest_step(st: SpecNestState, t: SpecFlatToken) -> SpecNestState {
    if st.err {
        st
    } else {
        match t {
            SpecFlatToken::Open => SpecNestState {
                stack: st.stack.push(SpecNestFrame { bracket: false, items: st.cur }),
                cur: Seq::empty(),
                err: false,
            },
            SpecFlatToken::OpenSquare => SpecNestState {
                stack: st.stack.push(SpecNestFrame { bracket: true, items: st.cur }),
                cur: Seq::empty(),
                err: false,
            },
            SpecFlatToken::Close => {
                if st.stack.len() > 0 && !st.stack.last().bracket {
                    SpecNestState {
                        stack: st.stack.drop_last(),
                        cur: st.stack.last().items.push(SpecToken::Parenthesized(st.cur)),
                        err: false,
                    }
                } else {
                    SpecNestState { stack: st.stack, cur: st.cur, err: true }
                }
            },
            SpecFlatToken::CloseSquare => {
                if st.stack.len() > 0 && st.stack.last().bracket {
                    SpecNestState {
                        stack: st.stack.drop_last(),
                        cur: st.stack.last().items.push(SpecToken::Bracketed(st.cur)),
                        err: false,
                    }
                } else {
                    SpecNestState { stack: st.stack, cur: st.cur, err: true }
                }
            },
            SpecFlatToken::Word(w) => SpecNestState {
                stack: st.stack,
                cur: st.cur.push(SpecToken::Word(w)),
                err: false,
            },
            SpecFlatToken::Number(n) => SpecNestState {
                stack: st.stack,
                cur: st.cur.push(SpecToken::Number(n)),
                err: false,
            },
            SpecFlatToken::Text(s) => SpecNestState {
                stack: st.stack,
                cur: st.cur.push(SpecToken::Text(s)),
                err: false,
            },
            SpecFlatToken::Keyword(k) => SpecNestState {
                stack: st.stack,
                cur: st.cur.push(SpecToken::Keyword(k)),
                err: false,
            },
        }
    }
}

/// The nesting pass as a left fold over the flat token stream.
pub open spec fn spec_nest_tokens(ts: Seq<SpecFlatToken>) -> SpecNestState
    decreases ts.len(),
{
    if ts.len() == 0 {
        spec_nest_init()
    } else {
        spec_nest_step(spec_nest_tokens(ts.drop_last()), ts.last())
    }
}

/// The token tree of a flat stream: the top level of the fold, provided no
/// delimiter failed to match and no group stays open at the end.
pub open spec fn spec_build_tree(ts: Seq<SpecFlatToken>) -> Result<Seq<SpecToken>, SyntaxError> {
    let st = spec_nest_tokens(ts);
    if st.err || st.stack.len() > 0 {
        Err(SyntaxError::UnbalancedDelimiter)
    } else {
        Ok(st.cur)
    }
}

/// What tokenizing a whole source string yields: the token trees of its
/// top-level forms in order, or the first grammar failure.
pub open spec fn spec_parse(s: Seq<char>) -> Result<Seq<SpecToken>, SyntaxError> {
    match spec_flat_tokens(s) {
        Err(e) => Err(e),
        Ok(fts) => spec_build_tree(fts),
    }
}

/// A spelling that stays one word under the grammar: nonempty, made of
/// atom characters, not all digits, and not a reserved spelling.
pub open spec fn plain_word(w: Seq<char>) -> bool {
    &&& w.len() > 0
    &&& forall|i: int| 0 <= i < w.len() ==> is_atom_char(#[trigger] w[i])
    &&& !all_digits(w)
    &&& spec_keyword_of(w) is None
}

/// A numeric literal the grammar accepts: nonempty digits whose value fits
/// in an unsigned 64-bit integer.
pub open spec fn plain_number(d: Seq<char>) -> bool {
    &&& d.len() > 0
    &&& all_digits(d)
    &&& digits_value(d) <= u64::MAX as nat
}

/// The source text of one `(define <name> <number>)` form.
pub open spec fn define_form(w: Seq<char>, d: Seq<char>) -> Seq<char> {
    seq!['('] + "define"@ + seq![' '] + w + seq![' '] + d + seq![')']
}

/// One name/number pair per form: every name stays one plain word and
/// every number fits.
pub open spec fn plain_defines(ps: Seq<(Seq<char>, Seq<char>)>) -> bool {
    forall|i: int| 0 <= i < ps.len() ==> plain_word((#[trigger] ps[i]).0) && plain_number(ps[i].1)
}

/// The source text of one form per pair, concatenated with nothing
/// between them.
pub open spec fn define_forms_text(ps: Seq<(Seq<char>, Seq<char>)>) -> Seq<char>
    decreases ps.len(),
{
    if ps.len() == 0 {
        Seq::empty()
    } else {
        define_forms_text(ps.drop_last()) + define_form(ps.last().0, ps.last().1)
    }
}

/// The flat tokens of one form.
pub open spec fn define_form_flat(w: Seq<char>, d: Seq<char>) -> Seq<SpecFlatToken> {
    seq![
        SpecFlatToken::Open,
        SpecFlatToken::Keyword(Literal::Define),
        SpecFlatToken::Word(w),
        SpecFlatToken::Number(digits_value(d) as u64),
        SpecFlatToken::Close,
    ]
}

/// The token tree of one form.
pub open spec fn define_form_token(w: Seq<char>, d: Seq<char>) -> SpecToken {
    SpecToken::Parenthesized(
        seq![
            SpecToken::Keyword(Literal::Define),
            SpecToken::Word(w),
            SpecToken::Number(digits_value(d) as u64),
        ],
    )
}

/// The token trees of the forms, in order.
pub open spec fn define_forms_tokens(ps: Seq<(Seq<char>, Seq<char>)>) -> Seq<SpecToken>
    decreases ps.len(),
{
    if ps.len() == 0 {
        Seq::empty()
    } else {
        define_forms_tokens(ps.drop_last()).push(define_form_token(ps.last().0, ps.last().1))
    }
}

/// The flat tokens of the forms, in order.
spec fn define_forms_flats(ps: Seq<(Seq<char>, Seq<char>)>) -> Seq<SpecFlatToken>
    decreases ps.len(),
{
    if ps.len() == 0 {
        Seq::empty()
    } else {
        define_forms_flats(ps.drop_last()) + define_form_flat(ps.last().0, ps.last().1)
    }
}

/// A prefix of well-formed pairs is well formed.
pub proof fn lemma_plain_defines_prefix(ps: Seq<(Seq<char>, Seq<char>)>)
    requires
        plain_defines(ps),
        ps.len() > 0,
    ensures
        plain_defines(ps.drop_last()),
        plain_word(ps.last().0),
        plain_number(ps.last().1),
{
    assert forall|i: int|
        0 <= i < ps.drop_last().len() implies plain_word(
        (#[trigger] ps.drop_last()[i]).0,
    ) && plain_number(ps.drop_last()[i].1) by {
        assert(ps.drop_last()[i] == ps[i]);
    }
}

/// The character scan continued from an arbitrary state.
spec fn spec_lex_from(st: SpecLexState, s: Seq<char>) -> SpecLexState
    decreases s.len(),
{
    if s.len() == 0 {
        st
    } else {
        spec_lex_step(spec_lex_from(st, s.drop_last()), s.last())
    }
}

proof fn lemma_lex_from_init(s: Seq<char>)
    ensures
        spec_lex_chars(s) == spec_lex_from(spec_lex_init(), s),
    decreases s.len(),
{
    if s.len() > 0 {
        lemma_lex_from_init(s.drop_last());
    }
}

proof fn lemma_lex_from_append(st: SpecLexState, s1: Seq<char>, s2: Seq<char>)
    ensures
        spec_lex_from(st, s1 + s2) == spec_lex_from(spec_lex_from(st, s1), s2),
    decreases s2.len(),
{
    if s2.len() == 0 {
        assert(s1 + s2 =~= s1);
    } else {
        assert((s1 + s2).drop_last() =~= s1 + s2.drop_last());
        assert((s1 + s2).last() == s2.last());
        lemma_lex_from_append(st, s1, s2.drop_last());
    }
}

proof fn lemma_lex_from_single(st: SpecLexState, c: char)
    ensures
        spec_lex_from(st, seq![c]) == spec_lex_step(st, c),
{
    assert(seq![c].drop_last() =~= Seq::<char>::empty());
    assert(seq![c].last() == c);
    assert(spec_lex_from(st, Seq::<char>::empty()) == st);
    assert(spec_lex_from(st, seq![c]) == spec_lex_step(
        spec_lex_from(st, seq![c].drop_last()),
        seq![c].last(),
    ));
}

proof fn lemma_lex_atom_run(st: SpecLexState, a: Seq<char>)
    requires
        st.err is None,
        st.mode == SpecLexMode::Normal,
        a.len() > 0,
        forall|i: int| 0 <= i < a.len() ==> is_atom_char(#[trigger] a[i]),
    ensures
        spec_lex_from(st, a) == (SpecLexState {
            mode: SpecLexMode::InAtom(a),
            out: st.out,
            err: None,
        }),
    decreases a.len(),
{
    if a.len() == 1 {
        lemma_lex_from_single(st, a.last());
        assert(seq![a.last()] =~= a);
    } else {
        lemma_lex_atom_run(st, a.drop_last());
        assert(a.drop_last().push(a.last()) =~= a);
    }
}

proof fn lemma_digit_is_atom(c: char)
    requires
        is_digit_char(c),
    ensures
        is_atom_char(c),
{
}

proof fn lemma_lex_define_form(st: SpecLexState, w: Seq<char>, d: Seq<char>)
    requires
        st.err is None,
        st.mode == SpecLexMode::Normal,
        plain_word(w),
        plain_number(d),
    ensures
        spec_lex_from(st, define_form(w, d)) == (SpecLexState {
            mode: SpecLexMode::Normal,
            out: st.out + define_form_flat(w, d),
            err: None,
        }),
{
    reveal_strlit("define");
    reveal_strlit("cons");
    reveal_strlit("car");
    reveal_strlit("cdr");
    reveal_strlit("if");
    reveal_strlit("lambda");
    reveal_strlit("begin");
    reveal_strlit("define-syntax");
    reveal_strlit("call/cc");

    let kw = "define"@;
    assert(kw.len() == 6);
    assert forall|i: int| 0 <= i < kw.len() implies is_atom_char(#[trigger] kw[i]) by {
        if i == 0 {
            assert(kw[i] == 'd');
        } else if i == 1 {
            assert(kw[i] == 'e');
        } else if i == 2 {
            assert(kw[i] == 'f');
        } else if i == 3 {
            assert(kw[i] == 'i');
        } else if i == 4 {
            assert(kw[i] == 'n');
        } else {
            assert(kw[i] == 'e');
        }
    }
    assert(!is_digit_char(kw[0]));
    assert(!all_digits(kw));
    assert(kw != "lambda"@) by {
        assert(kw[0] == 'd' && "lambda"@[0] == 'l');
    }
    assert(spec_keyword_of(kw) == Some(Literal::Define));
    assert(spec_classify(kw) == Ok::<SpecFlatToken, SyntaxError>(
        SpecFlatToken::Keyword(Literal::Define),
    ));
    assert(spec_classify(w) == Ok::<SpecFlatToken, SyntaxError>(SpecFlatToken::Word(w)));
    assert forall|i: int| 0 <= i < d.len() implies is_atom_char(#[trigger] d[i]) by {
        lemma_digit_is_atom(d[i]);
    }
    assert(spec_classify(d) == Ok::<SpecFlatToken, SyntaxError>(
        SpecFlatToken::Number(digits_value(d) as u64),
    ));

    let p1 = seq!['('];
    let p2 = p1 + kw;
    let p3 = p2 + seq![' '];
    let p4 = p3 + w;
    let p5 = p4 + seq![' '];
    let p6 = p5 + d;

    lemma_lex_from_single(st, '(');
    lemma_lex_from_append(st, p1, kw);
    let s1 = spec_lex_from(st, p1);
    assert(s1 == (SpecLexState {
        mode: SpecLexMode::Normal,
        out: st.out.push(SpecFlatToken::Open),
        err: None,
    }));
    lemma_lex_atom_run(s1, kw);
    let s2 = spec_lex_from(st, p2);

    lemma_lex_from_append(st, p2, seq![' ']);
    lemma_lex_from_single(s2, ' ');
    let s3 = spec_lex_from(st, p3);
    assert(s3.mode == SpecLexMode::Normal && s3.err is None);
    assert(s3.out =~= st.out + seq![
        SpecFlatToken::Open,
        SpecFlatToken::Keyword(Literal::Define),
    ]);

    lemma_lex_from_append(st, p3, w);
    lemma_lex_atom_run(s3, w);
    let s4 = spec_lex_from(st, p4);

    lemma_lex_from_append(st, p4, seq![' ']);
    lemma_lex_from_single(s4, ' ');
    let s5 = spec_lex_from(st, p5);
    assert(s5.mode == SpecLexMode::Normal && s5.err is None);

    lemma_lex_from_append(st, p5, d);
    lemma_lex_atom_run(s5, d);
    let s6 = spec_lex_from(st, p6);

    assert(define_form(w, d) == p6 + seq![')']);
    lemma_lex_from_append(st, p6, seq![')']);
    lemma_lex_from_single(s6, ')');
    assert(spec_lex_from(st, define_form(w, d)).out =~= st.out + define_form_flat(w, d));
}

/// The character scan of the concatenated forms ends between tokens with
/// five flat tokens per form and no failure.
proof fn lemma_lex_forms(ps: Seq<(Seq<char>, Seq<char>)>)
    requires
        plain_defines(ps),
    ensures
        spec_lex_chars(define_forms_text(ps)) == (SpecLexState {
            mode: SpecLexMode::Normal,
            out: define_forms_flats(ps),
            err: None,
        }),
    decreases ps.len(),
{
    lemma_lex_from_init(define_forms_text(ps));
    if ps.len() == 0 {
        assert(define_forms_flats(ps) =~= Seq::<SpecFlatToken>::empty());
        assert(define_forms_text(ps) =~= Seq::<char>::empty());
    } else {
        let pp = ps.drop_last();
        lemma_plain_defines_prefix(ps);
        lemma_lex_forms(pp);
        lemma_lex_from_init(define_forms_text(pp));
        lemma_lex_from_append(
            spec_lex_init(),
            define_forms_text(pp),
            define_form(ps.last().0, ps.last().1),
        );
        lemma_lex_define_form(spec_lex_chars(define_forms_text(pp)), ps.last().0, ps.last().1);
    }
}

/// The nesting pass continued from an arbitrary state.
spec fn spec_nest_from(st: SpecNestState, ts: Seq<SpecFlatToken>) -> SpecNestState
    decreases ts.len(),
{
    if ts.len() == 0 {
        st
    } else {
        spec_nest_step(spec_nest_from(st, ts.drop_last()), ts.last())
    }
}

proof fn lemma_nest_from_init(ts: Seq<SpecFlatToken>)
    ensures
        spec_nest_tokens(ts) == spec_nest_from(spec_nest_init(), ts),
    decreases ts.len(),
{
    if ts.len() > 0 {
        lemma_nest_from_init(ts.drop_last());
    }
}

proof fn lemma_nest_from_append(st: SpecNestState, t1: Seq<SpecFlatToken>, t2: Seq<SpecFlatToken>)
    ensures
        spec_nest_from(st, t1 + t2) == spec_nest_from(spec_nest_from(st, t1), t2),
    decreases t2.len(),
{
    if t2.len() == 0 {
        assert(t1 + t2 =~= t1);
    } else {
        assert((t1 + t2).drop_last() =~= t1 + t2.drop_last());
        assert((t1 + t2).last() == t2.last());
        lemma_nest_from_append(st, t1, t2.drop_last());
    }
}

proof fn lemma_nest_from_single(st: SpecNestState, t: SpecFlatToken)
    ensures
        spec_nest_from(st, seq![t]) == spec_nest_step(st, t),
{
    assert(seq![t].drop_last() =~= Seq::<SpecFlatToken>::empty());
    assert(seq![t].last() == t);
    assert(spec_nest_from(st, Seq::<SpecFlatToken>::empty()) == st);
    assert(spec_nest_from(st, seq![t]) == spec_nest_step(
        spec_nest_from(st, seq![t].drop_last()),
        seq![t].last(),
    ));
}

proof fn lemma_nest_define_form(cur: Seq<SpecToken>, w: Seq<char>, d: Seq<char>)
    ensures
        spec_nest_from(
            SpecNestState { stack: Seq::empty(), cur, err: false },
            define_form_flat(w, d),
        ) == (SpecNestState {
            stack: Seq::empty(),
            cur: cur.push(define_form_token(w, d)),
            err: false,
        }),
{
    let st = SpecNestState { stack: Seq::empty(), cur, err: false };
    let t1 = SpecFlatToken::Open;
    let t2 = SpecFlatToken::Keyword(Literal::Define);
    let t3 = SpecFlatToken::Word(w);
    let t4 = SpecFlatToken::Number(digits_value(d) as u64);
    let t5 = SpecFlatToken::Close;
    let p1 = seq![t1];
    let p2 = p1 + seq![t2];
    let p3 = p2 + seq![t3];
    let p4 = p3 + seq![t4];
    assert(define_form_flat(w, d) =~= p4 + seq![t5]);

    lemma_nest_from_single(st, t1);
    let s1 = spec_nest_from(st, p1);
    lemma_nest_from_append(st, p1, seq![t2]);
    lemma_nest_from_single(s1, t2);
    let s2 = spec_nest_from(st, p2);
    lemma_nest_from_append(st, p2, seq![t3]);
    lemma_nest_from_single(s2, t3);
    let s3 = spec_nest_from(st, p3);
    lemma_nest_from_append(st, p3, seq![t4]);
    lemma_nest_from_single(s3, t4);
    let s4 = spec_nest_from(st, p4);
    lemma_nest_from_append(st, p4, seq![t5]);
    lemma_nest_from_single(s4, t5);

    assert(s4.stack.len() == 1 && !s4.stack.last().bracket);
    assert(s4.cur =~= seq![
        SpecToken::Keyword(Literal::Define),
        SpecToken::Word(w),
        SpecToken::Number(digits_value(d) as u64),
    ]);
    let fin = spec_nest_from(st, define_form_flat(w, d));
    assert(fin.stack =~= Seq::<SpecNestFrame>::empty());
}

proof fn lemma_nest_forms(ps: Seq<(Seq<char>, Seq<char>)>)
    ensures
        spec_nest_tokens(define_forms_flats(ps)) == (SpecNestState {
            stack: Seq::empty(),
            cur: define_forms_tokens(ps),
            err: false,
        }),
    decreases ps.len(),
{
    lemma_nest_from_init(define_forms_flats(ps));
    if ps.len() == 0 {
        assert(define_forms_flats(ps) =~= Seq::<SpecFlatToken>::empty());
        assert(define_forms_tokens(ps) =~= Seq::<SpecToken>::empty());
        assert(spec_nest_init().stack =~= Seq::<SpecNestFrame>::empty());
        assert(spec_nest_init().cur =~= define_forms_tokens(ps));
    } else {
        let pp = ps.drop_last();
        lemma_nest_forms(pp);
        lemma_nest_from_init(define_forms_flats(pp));
        lemma_nest_from_append(
            spec_nest_init(),
            define_forms_flats(pp),
            define_form_flat(ps.last().0, ps.last().1),
        );
        lemma_nest_define_form(define_forms_tokens(pp), ps.last().0, ps.last().1);
    }
}

/// Concatenation law, tokenizer half: concatenated
/// `(define <name> <number>)` forms with nothing between them, each with
/// its own name and number, tokenize to exactly one parenthesized form
/// per pair, in source order.
pub proof fn lemma_parse_concatenated_defines(ps: Seq<(Seq<char>, Seq<char>)>)
    requires
        plain_defines(ps),
    ensures
        spec_parse(define_forms_text(ps)) == Ok::<Seq<SpecToken>, SyntaxError>(
            define_forms_tokens(ps),
        ),
        define_forms_tokens(ps).len() == ps.len(),
        forall|i: int|
            0 <= i < ps.len() ==> #[trigger] define_forms_tokens(ps)[i] == define_form_token(
                ps[i].0,
                ps[i].1,
            ),
    decreases ps.len(),
{
    lemma_lex_forms(ps);
    lemma_nest_forms(ps);
    if ps.len() > 0 {
        lemma_plain_defines_prefix(ps);
        lemma_parse_concatenated_defines(ps.drop_last());
        assert(forall|i: int|
            0 <= i < ps.len() - 1 ==> #[trigger] ps.drop_last()[i] == ps[i]);
    }
}

/// The text of a quoted string with one double quote stripped from each
/// end, if both are present.
pub open spec fn spec_strip_quotes(s: Seq<char>) -> Seq<char> {
    if s.len() >= 2 && s[0] == '"' && s.last() == '"' {
        s.subrange(1, s.len() - 1)
    } else {
        s
    }
}

proof fn lemma_lex_chars_step(s: Seq<char>, i: int)
    requires
        0 <= i < s.len(),
    ensures
        spec_lex_chars(s.take(i + 1)) == spec_lex_step(spec_lex_chars(s.take(i)), s[i]),
{
    assert(s.take(i + 1).drop_last() =~= s.take(i));
    assert(s.take(i + 1).last() == s[i]);
}

proof fn lemma_lex_error_sticky(s: Seq<char>, i: int)
    requires
        0 <= i <= s.len(),
        spec_lex_chars(s.take(i)).err is Some,
    ensures
        spec_lex_chars(s).err == spec_lex_chars(s.take(i)).err,
    decreases s.len() - i,
{
    if i == s.len() {
        assert(s.take(i) =~= s);
    } else {
        lemma_lex_chars_step(s, i);
        lemma_lex_error_sticky(s, i + 1);
    }
}

proof fn lemma_nest_tokens_step(ts: Seq<SpecFlatToken>, i: int)
    requires
        0 <= i < ts.len(),
    ensures
        spec_nest_tokens(ts.take(i + 1)) == spec_nest_step(spec_nest_tokens(ts.take(i)), ts[i]),
{
    assert(ts.take(i + 1).drop_last() =~= ts.take(i));
    assert(ts.take(i + 1).last() == ts[i]);
}

proof fn lemma_nest_error_sticky(ts: Seq<SpecFlatToken>, i: int)
    requires
        0 <= i <= ts.len(),
        spec_nest_tokens(ts.take(i)).err,
    ensures
        spec_nest_tokens(ts).err,
    decreases ts.len() - i,
{
    if i == ts.len() {
        assert(ts.take(i) =~= ts);
    } else {
        lemma_nest_tokens_step(ts, i);
        lemma_nest_error_sticky(ts, i + 1);
    }
}

proof fn lemma_digits_value_grows(s: Seq<char>, i: int)
    requires
        0 <= i <= s.len(),
    ensures
        digits_value(s) >= digits_value(s.take(i)),
    decreases s.len() - i,
{
    if i == s.len() {
        assert(s.take(i) =~= s);
    } else {
        assert(s.take(i + 1).drop_last() =~= s.take(i));
        assert(digits_value(s.take(i + 1)) == digits_value(s.take(i)) * 10 + digit_val(
            s.take(i + 1).last(),
        ));
        lemma_digits_value_grows(s, i + 1);
    }
}

/// Relies on `String::push`: it appends the given character to the end of
/// the string.
pub assume_specification[ String::push ](s: &mut String, c: char)
    ensures
        final(s)@ == old(s)@.push(c),
;

fn string_of_chars(v: &Vec<char>) -> (s: String)
    ensures
        s@ == v@,
{
    let mut s = String::new();
    let mut i: usize = 0;
    while i < v.len()
        invariant
            i <= v@.len(),
            s@ == v@.take(i as int),
        decreases v@.len() - i,
    {
        s.push(v[i]);
        proof {
            assert(v@.take(i + 1) =~= v@.take(i as int).push(v@[i as int]));
        }
        i = i + 1;
    }
    proof {
        assert(v@.take(v@.len() as int) =~= v@);
    }
    s
}

fn collect_chars(s: &str) -> (v: Vec<char>)
    ensures
        v@ == s@,
{
    let n = s.unicode_len();
    let mut v: Vec<char> = Vec::new();
    let mut i: usize = 0;
    while i < n
        invariant
            i <= n,
            n == s@.len(),
            v@ == s@.take(i as int),
        decreases n - i,
    {
        v.push(s.get_char(i));
        proof {
            assert(s@.take(i + 1) =~= s@.take(i as int).push(s@[i as int]));
        }
        i = i + 1;
    }
    proof {
        assert(s@.take(n as int) =~= s@);
    }
    v
}

/// Strips one double quote from each end of the text, if both are present.
pub fn strip_quotes<'a>(s: &'a str) -> (r: &'a str)
    ensures
        r@ == spec_strip_quotes(s@),
{
    let n = s.unicode_len();
    if n >= 2 && s.get_char(0) == '"' && s.get_char(n - 1) == '"' {
        s.substring_char(1, n - 1)
    } else {
        s
    }
}

fn classify_atom(acc: &Vec<char>) -> (r: Result<FlatToken, SyntaxError>)
    requires
        acc@.len() > 0,
    ensures
        match r {
            Ok(t) => spec_classify(acc@) == Ok::<SpecFlatToken, SyntaxError>(t@),
            Err(e) => spec_classify(acc@) == Err::<SpecFlatToken, SyntaxError>(e),
        },
{
    let mut all_dig = true;
    let mut i: usize = 0;
    while i < acc.len()
        invariant
            i <= acc@.len(),
            all_dig == all_digits(acc@.take(i as int)),
        decreases acc@.len() - i,
    {
        let u: u32 = acc[i] as u32;
        if !(48 <= u && u <= 57) {
            all_dig = false;
        }
        proof {
            assert(forall|j: int| 0 <= j < i ==> #[trigger] acc@.take(i as int)[j] == acc@[j]);
            assert(forall|j: int| 0 <= j <= i ==> #[trigger] acc@.take(i + 1)[j] == acc@[j]);
            if all_digits(acc@.take(i as int)) && is_digit_char(acc@[i as int]) {
                assert(all_digits(acc@.take(i + 1)));
            }
            if all_digits(acc@.take(i + 1)) {
                assert(is_digit_char(acc@.take(i + 1)[i as int]));
                assert(all_digits(acc@.take(i as int)));
            }
        }
        i = i + 1;
    }
    proof {
        assert(acc@.take(acc@.len() as int) =~= acc@);
    }
    if all_dig {
        let mut val: u64 = 0;
        let mut i: usize = 0;
        while i < acc.len()
            invariant
                i <= acc@.len(),
                all_digits(acc@),
                acc@.len() > 0,
                val as nat == digits_value(acc@.take(i as int)),
            decreases acc@.len() - i,
        {
            let d: u64 = (acc[i] as u32 - 48) as u64;
            proof {
                assert(acc@.take(i + 1).drop_last() =~= acc@.take(i as int));
                assert(digits_value(acc@.take(i + 1)) == digits_value(acc@.take(i as int)) * 10
                    + digit_val(acc@[i as int]));
            }
            let stepped: Option<u64> = match val.checked_mul(10) {
                Some(m) => m.checked_add(d),
                None => None,
            };
            match stepped {
                Some(v) => {
                    val = v;
                },
                None => {
                    proof {
                        assert(digits_value(acc@.take(i + 1)) > u64::MAX as nat);
                        lemma_digits_value_grows(acc@, i + 1);
                    }
                    return Err(SyntaxError::NumberOverflow);
                },
            }
            i = i + 1;
        }
        proof {
            assert(acc@.take(acc@.len() as int) =~= acc@);
        }
        Ok(FlatToken::Number(val))
    } else {
        let w = string_of_chars(acc);
        match Literal::from_text(w.as_str()) {
            Some(k) => Ok(FlatToken::Keyword(k)),
            None => Ok(FlatToken::Word(w)),
        }
    }
}

/// Where the executable character scan stands; the collected characters of
/// an atom or string live in a separate buffer.
enum LexPhase {
    Normal,
    Atom,
    Text,
}

/// The executable scan state agrees with the given fold state.
spec fn lex_inv(st: SpecLexState, phase: LexPhase, acc: Seq<char>, out: Seq<FlatToken>) -> bool {
    &&& st.err is None
    &&& st.out == flat_tokens_view(out)
    &&& match phase {
        LexPhase::Normal => st.mode == SpecLexMode::Normal && acc.len() == 0,
        LexPhase::Atom => st.mode == SpecLexMode::InAtom(acc) && acc.len() > 0,
        LexPhase::Text => st.mode == SpecLexMode::InText(acc),
    }
}

proof fn lemma_flat_view_push(ts: Seq<FlatToken>, t: FlatToken)
    ensures
        flat_tokens_view(ts.push(t)) == flat_tokens_view(ts).push(t@),
{
    assert(flat_tokens_view(ts.push(t)) =~= flat_tokens_view(ts).push(t@));
}

fn normal_char_step(c: char, out: &mut Vec<FlatToken>, acc: &mut Vec<char>) -> (phase: LexPhase)
    requires
        old(acc)@.len() == 0,
    ensures
        lex_inv(
            spec_normal_char(flat_tokens_view(old(out)@), c),
            phase,
            final(acc)@,
            final(out)@,
        ),
{
    proof {
        lemma_flat_view_push(out@, FlatToken::Open);
        lemma_flat_view_push(out@, FlatToken::Close);
        lemma_flat_view_push(out@, FlatToken::OpenSquare);
        lemma_flat_view_push(out@, FlatToken::CloseSquare);
    }
    if c == ' ' || c == '\n' || c == '\t' || c == '\r' {
        LexPhase::Normal
    } else if c == '(' {
        out.push(FlatToken::Open);
        LexPhase::Normal
    } else if c == ')' {
        out.push(FlatToken::Close);
        LexPhase::Normal
    } else if c == '[' {
        out.push(FlatToken::OpenSquare);
        LexPhase::Normal
    } else if c == ']' {
        out.push(FlatToken::CloseSquare);
        LexPhase::Normal
    } else if c == '"' {
        proof {
            assert(acc@ =~= Seq::<char>::empty());
        }
        LexPhase::Text
    } else {
        acc.push(c);
        proof {
            assert(acc@ =~= seq![c]);
        }
        LexPhase::Atom
    }
}

fn flat_lex(chars: &Vec<char>) -> (r: Result<Vec<FlatToken>, SyntaxError>)
    ensures
        match r {
            Ok(f) => spec_flat_tokens(chars@) == Ok::<Seq<SpecFlatToken>, SyntaxError>(
                flat_tokens_view(f@),
            ),
            Err(e) => spec_flat_tokens(chars@) == Err::<Seq<SpecFlatToken>, SyntaxError>(e),
        },
{
    let mut out: Vec<FlatToken> = Vec::new();
    let mut acc: Vec<char> = Vec::new();
    let mut phase = LexPhase::Normal;
    let mut i: usize = 0;
    proof {
        assert(chars@.take(0) =~= Seq::<char>::empty());
        assert(flat_tokens_view(out@) =~= Seq::<SpecFlatToken>::empty());
    }
    while i < chars.len()
        invariant
            i <= chars@.len(),
            lex_inv(spec_lex_chars(chars@.take(i as int)), phase, acc@, out@),
        decreases chars@.len() - i,
    {
        let c = chars[i];
        proof {
            lemma_lex_chars_step(chars@, i as int);
        }
        match phase {
            LexPhase::Normal => {
                phase = normal_char_step(c, &mut out, &mut acc);
            },
            LexPhase::Atom => {
                let atom_char = !(c == ' ' || c == '\n' || c == '\t' || c == '\r' || c == '('
                    || c == ')' || c == '[' || c == ']' || c == '"');
                if atom_char {
                    acc.push(c);
                } else {
                    match classify_atom(&acc) {
                        Ok(t) => {
                            proof {
                                lemma_flat_view_push(out@, t);
                            }
                            out.push(t);
                            acc = Vec::new();
                            phase = normal_char_step(c, &mut out, &mut acc);
                        },
                        Err(e) => {
                            proof {
                                lemma_lex_error_sticky(chars@, i + 1);
                            }
                            return Err(e);
                        },
                    }
                }
            },
            LexPhase::Text => {
                if c == '"' {
                    let t = FlatToken::Text(string_of_chars(&acc));
                    proof {
                        lemma_flat_view_push(out@, t);
                    }
                    out.push(t);
                    acc = Vec::new();
                    phase = LexPhase::Normal;
                } else {
                    acc.push(c);
                }
            },
        }
        i = i + 1;
    }
    proof {
        assert(chars@.take(chars@.len() as int) =~= chars@);
    }
    match phase {
        LexPhase::Normal => Ok(out),
        LexPhase::Atom => {
            match classify_atom(&acc) {
                Ok(t) => {
                    proof {
                        lemma_flat_view_push(out@, t);
                    }
                    out.push(t);
                    Ok(out)
                },
                Err(e) => Err(e),
            }
        },
        LexPhase::Text => Err(SyntaxError::UnterminatedText),
    }
}

/// The views of the executable nesting stack, outermost group first.
spec fn frames_view(stack: Seq<(bool, Vec<Token>)>) -> Seq<SpecNestFrame> {
    Seq::new(
        stack.len(),
        |i: int| SpecNestFrame { bracket: stack[i].0, items: tokens_view(stack[i].1@) },
    )
}

proof fn lemma_tokens_view_push(ts: Seq<Token>, t: Token)
    ensures
        tokens_view(ts.push(t)) == tokens_view(ts).push(t@),
{
    assert(tokens_view(ts.push(t)) =~= tokens_view(ts).push(t@));
}

fn build_tree(flat: &Vec<FlatToken>) -> (r: Result<Vec<Token>, SyntaxError>)
    ensures
        match r {
            Ok(toks) => spec_build_tree(flat_tokens_view(flat@)) == Ok::<
                Seq<SpecToken>,
                SyntaxError,
            >(tokens_view(toks@)),
            Err(e) => spec_build_tree(flat_tokens_view(flat@)) == Err::<Seq<SpecToken>, SyntaxError>(
                e,
            ),
        },
{
    let ghost fv = flat_tokens_view(flat@);
    let mut stack: Vec<(bool, Vec<Token>)> = Vec::new();
    let mut cur: Vec<Token> = Vec::new();
    let mut i: usize = 0;
    proof {
        assert(fv.take(0) =~= Seq::<SpecFlatToken>::empty());
        assert(frames_view(stack@) =~= Seq::<SpecNestFrame>::empty());
        assert(tokens_view(cur@) =~= Seq::<SpecToken>::empty());
    }
    while i < flat.len()
        invariant
            i <= flat@.len(),
            fv == flat_tokens_view(flat@),
            !spec_nest_tokens(fv.take(i as int)).err,
            spec_nest_tokens(fv.take(i as int)).stack == frames_view(stack@),
            spec_nest_tokens(fv.take(i as int)).cur == tokens_view(cur@),
        decreases flat@.len() - i,
    {
        proof {
            lemma_nest_tokens_step(fv, i as int);
        }
        match &flat[i] {
            FlatToken::Open => {
                stack.push((false, cur));
                cur = Vec::new();
                proof {
                    assert(frames_view(stack@) =~= spec_nest_tokens(fv.take(i as int)).stack.push(
                        SpecNestFrame {
                            bracket: false,
                            items: spec_nest_tokens(fv.take(i as int)).cur,
                        },
                    ));
                    assert(tokens_view(cur@) =~= Seq::<SpecToken>::empty());
                }
            },
            FlatToken::OpenSquare => {
                stack.push((true, cur));
                cur = Vec::new();
                proof {
                    assert(frames_view(stack@) =~= spec_nest_tokens(fv.take(i as int)).stack.push(
                        SpecNestFrame {
                            bracket: true,
                            items: spec_nest_tokens(fv.take(i as int)).cur,
                        },
                    ));
                    assert(tokens_view(cur@) =~= Seq::<SpecToken>::empty());
                }
            },
            FlatToken::Close => {
                match stack.pop() {
                    Some((bracket, items)) => {
                        if bracket {
                            proof {
                                lemma_nest_error_sticky(fv, i + 1);
                            }
                            return Err(SyntaxError::UnbalancedDelimiter);
                        }
                        let group = Token::Parenthesized(cur);
                        proof {
                            crate::token::lemma_group_views(&group);
                            lemma_tokens_view_push(items@, group);
                            assert(frames_view(stack@) =~= frames_view(stack@.push((bracket, items))).drop_last());
                        }
                        cur = items;
                        cur.push(group);
                    },
                    None => {
                        proof {
                            lemma_nest_error_sticky(fv, i + 1);
                        }
                        return Err(SyntaxError::UnbalancedDelimiter);
                    },
                }
            },
            FlatToken::CloseSquare => {
                match stack.pop() {
                    Some((bracket, items)) => {
                        if !bracket {
                            proof {
                                lemma_nest_error_sticky(fv, i + 1);
                            }
                            return Err(SyntaxError::UnbalancedDelimiter);
                        }
                        let group = Token::Bracketed(cur);
                        proof {
                            crate::token::lemma_group_views(&group);
                            lemma_tokens_view_push(items@, group);
                            assert(frames_view(stack@) =~= frames_view(stack@.push((bracket, items))).drop_last());
                        }
                        cur = items;
                        cur.push(group);
                    },
                    None => {
                        proof {
                            lemma_nest_error_sticky(fv, i + 1);
                        }
                        return Err(SyntaxError::UnbalancedDelimiter);
                    },
                }
            },
            FlatToken::Word(w) => {
                let t = Token::Word(w.clone());
                proof {
                    lemma_tokens_view_push(cur@, t);
                }
                cur.push(t);
            },
            FlatToken::Number(n) => {
                let t = Token::Number(*n);
                proof {
                    lemma_tokens_view_push(cur@, t);
                }
                cur.push(t);
            },
            FlatToken::Text(s) => {
                let t = Token::Text(s.clone());
                proof {
                    lemma_tokens_view_push(cur@, t);
                }
                cur.push(t);
            },
            FlatToken::Keyword(k) => {
                let t = Token::Keyword(*k);
                proof {
                    lemma_tokens_view_push(cur@, t);
                }
                cur.push(t);
            },
        }
        i = i + 1;
    }
    proof {
        assert(fv.take(fv.len() as int) =~= fv);
    }
    if stack.len() > 0 {
        return Err(SyntaxError::UnbalancedDelimiter);
    }
    Ok(cur)
}

/// Turns a whole configuration source string into the ordered sequence of
/// its top-level syntax tokens, or reports the first grammar failure.
pub fn parse(s: &str) -> (r: Result<Vec<Token>, SyntaxError>)
    ensures
        match r {
            Ok(toks) => spec_parse(s@) == Ok::<Seq<SpecToken>, SyntaxError>(tokens_view(toks@)),
            Err(e) => spec_parse(s@) == Err::<Seq<SpecToken>, SyntaxError>(e),
        },
{
    let chars = collect_chars(s);
    match flat_lex(&chars) {
        Ok(flat) => build_tree(&flat),
        Err(e) => Err(e),
    }
}

} // verus!
