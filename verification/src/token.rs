//! The token model: the recursive token tree produced by the tokenizer,
//! together with the closed table of reserved keywords.

use vstd::prelude::*;

verus! {

broadcast use vstd::seq::axiom_seq_index_decreases, vstd::std_specs::vec::axiom_vec_decreases_to_view;

/// One of the nine reserved keyword spellings. A `Word` whose text matches
/// one of these spellings is folded into `Token::Keyword` at tokenization
/// time; the table is closed and no user-defined keywords exist.
#[derive(Clone, Copy, Debug, PartialEq, Eq, Structural)]
pub enum Literal {
    Cons,
    Car,
    Cdr,
    If,
    Lambda,
    Begin,
    Define,
    DefineSyntax,
    CallCc,
}

/// A syntax token: the pre-semantic, recursive tree shape of one form.
#[derive(Debug, PartialEq, Eq)]
pub enum Token {
    /// An application-style group, written `( ... )`.
    Parenthesized(Vec<Token>),
    /// A literal-list-style group, written `[ ... ]`.
    Bracketed(Vec<Token>),
    /// An unquoted identifier that matched no reserved spelling.
    Word(String),
    /// An unsigned numeric literal.
    Number(u64),
    /// A double-quoted string, with the two quotes stripped.
    Text(String),
    /// A word that matched one of the nine reserved spellings.
    Keyword(Literal),
}

/// The mathematical shape of a `Token`: groups are `Seq`s and texts are
/// sequences of characters.
pub enum SpecToken {
    Parenthesized(Seq<SpecToken>),
    Bracketed(Seq<SpecToken>),
    Word(Seq<char>),
    Number(u64),
    Text(Seq<char>),
    Keyword(Literal),
}

/// The mathematical shape of one token.
pub open spec fn spec_token_view(t: Token) -> SpecToken
    decreases t,
{
    match t {
        Token::Parenthesized(ts) => SpecToken::Parenthesized(
            Seq::new(ts@.len(), |i: int| if 0 <= i < ts@.len() {
                spec_token_view(ts@[i])
            } else {
                vstd::pervasive::arbitrary()
            }),
        ),
        Token::Bracketed(ts) => SpecToken::Bracketed(
            Seq::new(ts@.len(), |i: int| if 0 <= i < ts@.len() {
                spec_token_view(ts@[i])
            } else {
                vstd::pervasive::arbitrary()
            }),
        ),
        Token::Word(w) => SpecToken::Word(w@),
        Token::Number(n) => SpecToken::Number(n),
        Token::Text(s) => SpecToken::Text(s@),
        Token::Keyword(k) => SpecToken::Keyword(k),
    }
}

impl View for Token {
    type V = SpecToken;

    open spec fn view(&self) -> SpecToken {
        spec_token_view(*self)
    }
}

/// The views of a sequence of tokens, in order.
pub open spec fn tokens_view(ts: Seq<Token>) -> Seq<SpecToken> {
    Seq::new(ts.len(), |i: int| ts[i]@)
}

/// The reserved-keyword table: the keyword a spelling stands for, or `None`
/// for any other text.
pub open spec fn spec_keyword_of(s: Seq<char>) -> Option<Literal> {
    if s == "cons"@ {
        Some(Literal::Cons)
    } else if s == "car"@ {
        Some(Literal::Car)
    } else if s == "cdr"@ {
        Some(Literal::Cdr)
    } else if s == "if"@ {
        Some(Literal::If)
    } else if s == "lambda"@ {
        Some(Literal::Lambda)
    } else if s == "begin"@ {
        Some(Literal::Begin)
    } else if s == "define"@ {
        Some(Literal::Define)
    } else if s == "define-syntax"@ {
        Some(Literal::DefineSyntax)
    } else if s == "call/cc"@ {
        Some(Literal::CallCc)
    } else {
        None
    }
}

fn clone_tokens(ts: &Vec<Token>) -> (r: Vec<Token>)
    ensures
        tokens_view(r@) == tokens_view(ts@),
    decreases ts,
{
    let mut r: Vec<Token> = Vec::new();
    let mut i: usize = 0;
    while i < ts.len()
        invariant
            i <= ts@.len(),
            r@.len() == i,
            forall|j: int| 0 <= j < i ==> #[trigger] r@[j]@ == ts@[j]@,
        decreases ts@.len() - i,
    {
        r.push(ts[i].clone());
        i = i + 1;
    }
    proof {
        assert(tokens_view(r@) =~= tokens_view(ts@));
    }
    r
}

impl Clone for Token {
    /// A deep copy with the same mathematical shape.
    fn clone(&self) -> (r: Token)
        ensures
            r@ == self@,
        decreases self,
    {
        proof {
            lemma_group_views(self);
        }
        let r = match self {
            Token::Parenthesized(ts) => Token::Parenthesized(clone_tokens(ts)),
            Token::Bracketed(ts) => Token::Bracketed(clone_tokens(ts)),
            Token::Word(w) => Token::Word(w.clone()),
            Token::Number(n) => Token::Number(*n),
            Token::Text(s) => Token::Text(s.clone()),
            Token::Keyword(k) => Token::Keyword(*k),
        };
        proof {
            lemma_group_views(&r);
        }
        r
    }
}

/// The view of a group token is the group of its elements' views.
pub proof fn lemma_group_views(t: &Token)
    ensures
        match t {
            Token::Parenthesized(ts) => t@ == SpecToken::Parenthesized(tokens_view(ts@)),
            Token::Bracketed(ts) => t@ == SpecToken::Bracketed(tokens_view(ts@)),
            _ => true,
        },
{
    match t {
        Token::Parenthesized(ts) => {
            assert(t@->Parenthesized_0 =~= tokens_view(ts@));
        },
        Token::Bracketed(ts) => {
            assert(t@->Bracketed_0 =~= tokens_view(ts@));
        },
        _ => {},
    }
}

/// Character-for-character equality of two strings.
pub fn str_eq(a: &str, b: &str) -> (r: bool)
    ensures
        r == (a@ == b@),
{
    let n = a.unicode_len();
    if b.unicode_len() != n {
        return false;
    }
    let mut i: usize = 0;
    while i < n
        invariant
            i <= n,
            n == a@.len(),
            b@.len() == n,
            forall|j: int| 0 <= j < i ==> a@[j] == b@[j],
        decreases n - i,
    {
        if a.get_char(i) != b.get_char(i) {
            return false;
        }
        i = i + 1;
    }
    proof {
        assert(a@ =~= b@);
    }
    true
}

/// The reserved spelling of a keyword, as the vocabulary fixes it.
pub open spec fn spec_spelling(l: Literal) -> Seq<char> {
    match l {
        Literal::Cons => "cons"@,
        Literal::Car => "car"@,
        Literal::Cdr => "cdr"@,
        Literal::If => "if"@,
        Literal::Lambda => "lambda"@,
        Literal::Begin => "begin"@,
        Literal::Define => "define"@,
        Literal::DefineSyntax => "define-syntax"@,
        Literal::CallCc => "call/cc"@,
    }
}

/// Spelling round-trip law: every keyword renders as its reserved
/// spelling, so looking the rendered text up in the keyword table gives
/// the same keyword back.
pub proof fn lemma_spelling_round_trip(l: Literal)
    ensures
        spec_keyword_of(spec_spelling(l)) == Some(l),
{
    reveal_strlit("cons");
    reveal_strlit("car");
    reveal_strlit("cdr");
    reveal_strlit("if");
    reveal_strlit("lambda");
    reveal_strlit("begin");
    reveal_strlit("define");
    reveal_strlit("define-syntax");
    reveal_strlit("call/cc");
    assert("cons"@.len() == 4);
    assert("car"@.len() == 3);
    assert("cdr"@.len() == 3);
    assert("if"@.len() == 2);
    assert("lambda"@.len() == 6);
    assert("begin"@.len() == 5);
    assert("define"@.len() == 6);
    assert("define-syntax"@.len() == 13);
    assert("call/cc"@.len() == 7);
    match l {
        Literal::Cdr => {
            assert("cdr"@ != "car"@) by {
                assert("cdr"@[1] == 'd' && "car"@[1] == 'a');
            }
        },
        Literal::Define => {
            assert("define"@ != "lambda"@) by {
                assert("define"@[0] == 'd' && "lambda"@[0] == 'l');
            }
        },
        _ => {},
    }
}

impl Literal {
    /// Looks a spelling up in the reserved-keyword table.
    pub fn from_text(s: &str) -> (r: Option<Literal>)
        ensures
            r == spec_keyword_of(s@),
    {
        if str_eq(s, "cons") {
            Some(Literal::Cons)
        } else if str_eq(s, "car") {
            Some(Literal::Car)
        } else if str_eq(s, "cdr") {
            Some(Literal::Cdr)
        } else if str_eq(s, "if") {
            Some(Literal::If)
        } else if str_eq(s, "lambda") {
            Some(Literal::Lambda)
        } else if str_eq(s, "begin") {
            Some(Literal::Begin)
        } else if str_eq(s, "define") {
            Some(Literal::Define)
        } else if str_eq(s, "define-syntax") {
            Some(Literal::DefineSyntax)
        } else if str_eq(s, "call/cc") {
            Some(Literal::CallCc)
        } else {
            None
        }
    }

    /// The reserved spelling this keyword is written with.
    pub fn spelling(&self) -> (r: String)
        ensures
            r@ == spec_spelling(*self),
    {
        match self {
            Literal::Cons => String::from_str("cons"),
            Literal::Car => String::from_str("car"),
            Literal::Cdr => String::from_str("cdr"),
            Literal::If => String::from_str("if"),
            Literal::Lambda => String::from_str("lambda"),
            Literal::Begin => String::from_str("begin"),
            Literal::Define => String::from_str("define"),
            Literal::DefineSyntax => String::from_str("define-syntax"),
            Literal::CallCc => String::from_str("call/cc"),
        }
    }
}

} // verus!
