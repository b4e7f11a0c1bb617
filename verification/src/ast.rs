//! The tag query language.
//!
//! A query combines tag names with `AND`, `OR` and `NOT`, and parentheses:
//!
//! ```text
//! program  = or_expr EOI
//! or_expr  = and_expr ("OR" and_expr)*
//! and_expr = not_expr ("AND" not_expr)*
//! not_expr = "NOT" not_expr | primary
//! primary  = "(" or_expr ")" | name
//! ```
//!
//! Blanks (space, tab, carriage return, line feed) separate tokens. A name is
//! a maximal run of characters that are neither blanks nor parentheses and
//! that is not one of the three keywords. `AND` and `OR` group to the left,
//! `AND` binds tighter than `OR`, and `NOT` tighter than both.

use vstd::prelude::*;

use crate::text::{chars_of, is_blank, is_blank_char, string_of};

verus! {

/// A parsed query.
#[derive(Debug)]
pub enum AST {
    AND(Box<AST>, Box<AST>),
    OR(Box<AST>, Box<AST>),
    NOT(Box<AST>),
    VAL(String),
}

/// The mathematical value of a query.
pub enum Query {
    And(Box<Query>, Box<Query>),
    Or(Box<Query>, Box<Query>),
    Not(Box<Query>),
    Name(Seq<char>),
}

pub open spec fn ast_view(a: AST) -> Query
    decreases a,
{
    match a {
        AST::AND(l, r) => Query::And(Box::new(ast_view(*l)), Box::new(ast_view(*r))),
        AST::OR(l, r) => Query::Or(Box::new(ast_view(*l)), Box::new(ast_view(*r))),
        AST::NOT(e) => Query::Not(Box::new(ast_view(*e))),
        AST::VAL(s) => Query::Name(s@),
    }
}

impl View for AST {
    type V = Query;

    open spec fn view(&self) -> Query {
        ast_view(*self)
    }
}

/// The reason a query text was refused.
#[derive(Debug, PartialEq, Eq, Structural)]
pub enum QueryError {
    /// The text is not a sentence of the query language.
    ParseFailed,
}

// ---------------------------------------------------------------------------
// Tokens
// ---------------------------------------------------------------------------

/// A lexical token of the query language (mathematical value).
pub enum Tok {
    LParen,
    RParen,
    And,
    Or,
    Not,
    Word(Seq<char>),
}

/// A lexical token of the query language.
#[derive(Debug)]
pub enum Token {
    LParen,
    RParen,
    And,
    Or,
    Not,
    Word(String),
}

impl View for Token {
    type V = Tok;

    open spec fn view(&self) -> Tok {
        match self {
            Token::LParen => Tok::LParen,
            Token::RParen => Tok::RParen,
            Token::And => Tok::And,
            Token::Or => Tok::Or,
            Token::Not => Tok::Not,
            Token::Word(s) => Tok::Word(s@),
        }
    }
}

pub open spec fn tokens_view(v: Seq<Token>) -> Seq<Tok> {
    v.map_values(|t: Token| t@)
}

pub open spec fn is_word_char(c: char) -> bool {
    !is_blank(c) && c != '(' && c != ')'
}

/// The end of the run of word characters that starts at `i`.
pub open spec fn word_end(s: Seq<char>, i: int) -> int
    decreases s.len() - i,
{
    if 0 <= i < s.len() && is_word_char(s[i]) {
        word_end(s, i + 1)
    } else {
        i
    }
}

/// The token that a word stands for: a keyword, or a name.
pub open spec fn classify(w: Seq<char>) -> Tok {
    if w == seq!['A', 'N', 'D'] {
        Tok::And
    } else if w == seq!['O', 'R'] {
        Tok::Or
    } else if w == seq!['N', 'O', 'T'] {
        Tok::Not
    } else {
        Tok::Word(w)
    }
}

/// The tokens of `s` from position `i` on.
pub open spec fn lex_from(s: Seq<char>, i: int) -> Seq<Tok>
    decreases s.len() - i,
{
    if i < 0 || i >= s.len() {
        seq![]
    } else if is_blank(s[i]) {
        lex_from(s, i + 1)
    } else if s[i] == '(' {
        seq![Tok::LParen] + lex_from(s, i + 1)
    } else if s[i] == ')' {
        seq![Tok::RParen] + lex_from(s, i + 1)
    } else {
        let j = word_end(s, i);
        if j <= i || j > s.len() {
            seq![]
        } else {
            seq![classify(s.subrange(i, j))] + lex_from(s, j)
        }
    }
}

/// The tokens of `s`.
pub open spec fn lex(s: Seq<char>) -> Seq<Tok> {
    lex_from(s, 0)
}

proof fn lemma_word_end_bounds(s: Seq<char>, i: int)
    requires
        0 <= i <= s.len(),
    ensures
        i <= word_end(s, i) <= s.len(),
        forall|k: int| i <= k < word_end(s, i) ==> is_word_char(#[trigger] s[k]),
        word_end(s, i) < s.len() ==> !is_word_char(s[word_end(s, i)]),
    decreases s.len() - i,
{
    if i < s.len() && is_word_char(s[i]) {
        lemma_word_end_bounds(s, i + 1);
    }
}

fn is_word_character(c: char) -> (b: bool)
    ensures
        b == is_word_char(c),
{
    !is_blank_char(c) && c != '(' && c != ')'
}

fn classify_word(w: String) -> (t: Token)
    ensures
        t@ == classify(w@),
{
    let cs = chars_of(w.as_str());
    if cs.len() == 3 && cs[0] == 'A' && cs[1] == 'N' && cs[2] == 'D' {
        assert(w@ =~= seq!['A', 'N', 'D']);
        Token::And
    } else if cs.len() == 2 && cs[0] == 'O' && cs[1] == 'R' {
        assert(w@ =~= seq!['O', 'R']);
        Token::Or
    } else if cs.len() == 3 && cs[0] == 'N' && cs[1] == 'O' && cs[2] == 'T' {
        assert(w@ =~= seq!['N', 'O', 'T']);
        Token::Not
    } else {
        assert(w@ != seq!['A', 'N', 'D']);
        assert(w@ != seq!['O', 'R']);
        assert(w@ != seq!['N', 'O', 'T']);
        Token::Word(w)
    }
}

/// Splits a query text into its tokens.
pub fn tokenize(ts: &str) -> (toks: Vec<Token>)
    ensures
        tokens_view(toks@) == lex(ts@),
{
    let cs = chars_of(ts);
    let n: usize = cs.len();
    let ghost s = cs@;
    let mut toks: Vec<Token> = Vec::new();
    let mut i: usize = 0;
    while i < n
        invariant
            n == cs.len(),
            s == cs@,
            i <= n,
            tokens_view(toks@) + lex_from(s, i as int) == lex_from(s, 0),
        decreases n - i,
    {
        let ghost before = toks@;
        let c = cs[i];
        if is_blank_char(c) {
            i = i + 1;
        } else if c == '(' {
            toks.push(Token::LParen);
            assert(tokens_view(toks@) =~= tokens_view(before) + seq![Tok::LParen]);
            i = i + 1;
        } else if c == ')' {
            toks.push(Token::RParen);
            assert(tokens_view(toks@) =~= tokens_view(before) + seq![Tok::RParen]);
            i = i + 1;
        } else {
            let mut j: usize = i;
            proof {
                lemma_word_end_bounds(s, i as int);
            }
            while j < n && is_word_character(cs[j])
                invariant
                    n == cs.len(),
                    s == cs@,
                    i <= j <= n,
                    word_end(s, i as int) == word_end(s, j as int),
                decreases n - j,
            {
                j = j + 1;
            }
            proof {
                lemma_word_end_bounds(s, j as int);
            }
            let w = string_of(&cs, i, j);
            let t = classify_word(w);
            toks.push(t);
            assert(tokens_view(toks@) =~= tokens_view(before) + seq![
                classify(s.subrange(i as int, j as int)),
            ]);
            i = j;
        }
    }
    toks
}

// ---------------------------------------------------------------------------
// Grammar
// ---------------------------------------------------------------------------

pub open spec fn parse_primary(t: Seq<Tok>, p: int) -> Option<(Query, int)>
    decreases t.len() - p, 0int,
{
    if 0 <= p < t.len() {
        match t[p] {
            Tok::Word(w) => Some((Query::Name(w), p + 1)),
            Tok::LParen => match parse_or(t, p + 1) {
                Some((q, p2)) => if p + 1 < p2 < t.len() && t[p2] is RParen {
                    Some((q, p2 + 1))
                } else {
                    None
                },
                None => None,
            },
            _ => None,
        }
    } else {
        None
    }
}

pub open spec fn parse_not(t: Seq<Tok>, p: int) -> Option<(Query, int)>
    decreases t.len() - p, 1int,
{
    if 0 <= p < t.len() && t[p] is Not {
        match parse_not(t, p + 1) {
            Some((q, p2)) => Some((Query::Not(Box::new(q)), p2)),
            None => None,
        }
    } else {
        parse_primary(t, p)
    }
}

/// The `("AND" not_expr)*` tail of a conjunction whose left part is `acc`.
pub open spec fn parse_and_rest(t: Seq<Tok>, acc: Query, p: int) -> Option<(Query, int)>
    decreases t.len() - p, 2int,
{
    if 0 <= p < t.len() && t[p] is And {
        match parse_not(t, p + 1) {
            Some((q, p2)) => if p + 1 < p2 <= t.len() {
                parse_and_rest(t, Query::And(Box::new(acc), Box::new(q)), p2)
            } else {
                None
            },
            None => None,
        }
    } else {
        Some((acc, p))
    }
}

pub open spec fn parse_and(t: Seq<Tok>, p: int) -> Option<(Query, int)>
    decreases t.len() - p, 3int,
{
    match parse_not(t, p) {
        Some((q, p2)) => if p < p2 <= t.len() {
            parse_and_rest(t, q, p2)
        } else {
            None
        },
        None => None,
    }
}

/// The `("OR" and_expr)*` tail of a disjunction whose left part is `acc`.
pub open spec fn parse_or_rest(t: Seq<Tok>, acc: Query, p: int) -> Option<(Query, int)>
    decreases t.len() - p, 4int,
{
    if 0 <= p < t.len() && t[p] is Or {
        match parse_and(t, p + 1) {
            Some((q, p2)) => if p + 1 < p2 <= t.len() {
                parse_or_rest(t, Query::Or(Box::new(acc), Box::new(q)), p2)
            } else {
                None
            },
            None => None,
        }
    } else {
        Some((acc, p))
    }
}

pub open spec fn parse_or(t: Seq<Tok>, p: int) -> Option<(Query, int)>
    decreases t.len() - p, 5int,
{
    match parse_and(t, p) {
        Some((q, p2)) => if p < p2 <= t.len() {
            parse_or_rest(t, q, p2)
        } else {
            None
        },
        None => None,
    }
}

/// The query that a whole token sequence denotes, if it is a sentence.
pub open spec fn parse_tokens(t: Seq<Tok>) -> Option<Query> {
    match parse_or(t, 0) {
        Some((q, p)) => if p == t.len() {
            Some(q)
        } else {
            None
        },
        None => None,
    }
}

/// The query that a text denotes, if it is a sentence of the language.
pub open spec fn query_of_text(s: Seq<char>) -> Option<Query> {
    parse_tokens(lex(s))
}

pub open spec fn result_view(r: Option<(AST, usize)>) -> Option<(Query, int)> {
    match r {
        Some((a, p)) => Some((a@, p as int)),
        None => None,
    }
}

fn parse_primary_exec(toks: &Vec<Token>, p: usize) -> (res: Option<(AST, usize)>)
    ensures
        result_view(res) == parse_primary(tokens_view(toks@), p as int),
    decreases toks@.len() - p, 0int,
{
    let ghost t = tokens_view(toks@);
    if p < toks.len() {
        assert(t[p as int] == toks@[p as int]@);
        match &toks[p] {
            Token::Word(w) => Some((AST::VAL(w.clone()), p + 1)),
            Token::LParen => {
                match parse_or_exec(toks, p + 1) {
                    Some((q, p2)) => {
                        if p + 1 < p2 && p2 < toks.len() && matches!(toks[p2], Token::RParen) {
                            assert(t[p2 as int] == toks@[p2 as int]@);
                            Some((q, p2 + 1))
                        } else {
                            proof {
                                if p + 1 < p2 < toks.len() {
                                    assert(t[p2 as int] == toks@[p2 as int]@);
                                }
                            }
                            None
                        }
                    },
                    None => None,
                }
            },
            _ => None,
        }
    } else {
        None
    }
}

fn parse_not_exec(toks: &Vec<Token>, p: usize) -> (res: Option<(AST, usize)>)
    ensures
        result_view(res) == parse_not(tokens_view(toks@), p as int),
    decreases toks@.len() - p, 1int,
{
    let ghost t = tokens_view(toks@);
    if p < toks.len() && matches!(toks[p], Token::Not) {
        assert(t[p as int] == toks@[p as int]@);
        match parse_not_exec(toks, p + 1) {
            Some((q, p2)) => Some((AST::NOT(Box::new(q)), p2)),
            None => None,
        }
    } else {
        proof {
            if p < toks.len() {
                assert(t[p as int] == toks@[p as int]@);
            }
        }
        parse_primary_exec(toks, p)
    }
}

fn parse_and_rest_exec(toks: &Vec<Token>, acc: AST, p: usize) -> (res: Option<(AST, usize)>)
    ensures
        result_view(res) == parse_and_rest(tokens_view(toks@), acc@, p as int),
    decreases toks@.len() - p, 2int,
{
    let ghost t = tokens_view(toks@);
    if p < toks.len() && matches!(toks[p], Token::And) {
        assert(t[p as int] == toks@[p as int]@);
        match parse_not_exec(toks, p + 1) {
            Some((q, p2)) => {
                if p + 1 < p2 && p2 <= toks.len() {
                    let combined = AST::AND(Box::new(acc), Box::new(q));
                    parse_and_rest_exec(toks, combined, p2)
                } else {
                    None
                }
            },
            None => None,
        }
    } else {
        proof {
            if p < toks.len() {
                assert(t[p as int] == toks@[p as int]@);
            }
        }
        Some((acc, p))
    }
}

fn parse_and_exec(toks: &Vec<Token>, p: usize) -> (res: Option<(AST, usize)>)
    ensures
        result_view(res) == parse_and(tokens_view(toks@), p as int),
    decreases toks@.len() - p, 3int,
{
    match parse_not_exec(toks, p) {
        Some((q, p2)) => {
            if p < p2 && p2 <= toks.len() {
                parse_and_rest_exec(toks, q, p2)
            } else {
                None
            }
        },
        None => None,
    }
}

fn parse_or_rest_exec(toks: &Vec<Token>, acc: AST, p: usize) -> (res: Option<(AST, usize)>)
    ensures
        result_view(res) == parse_or_rest(tokens_view(toks@), acc@, p as int),
    decreases toks@.len() - p, 4int,
{
    let ghost t = tokens_view(toks@);
    if p < toks.len() && matches!(toks[p], Token::Or) {
        assert(t[p as int] == toks@[p as int]@);
        match parse_and_exec(toks, p + 1) {
            Some((q, p2)) => {
                if p + 1 < p2 && p2 <= toks.len() {
                    let combined = AST::OR(Box::new(acc), Box::new(q));
                    parse_or_rest_exec(toks, combined, p2)
                } else {
                    None
                }
            },
            None => None,
        }
    } else {
        proof {
            if p < toks.len() {
                assert(t[p as int] == toks@[p as int]@);
            }
        }
        Some((acc, p))
    }
}

fn parse_or_exec(toks: &Vec<Token>, p: usize) -> (res: Option<(AST, usize)>)
    ensures
        result_view(res) == parse_or(tokens_view(toks@), p as int),
    decreases toks@.len() - p, 5int,
{
    match parse_and_exec(toks, p) {
        Some((q, p2)) => {
            if p < p2 && p2 <= toks.len() {
                parse_or_rest_exec(toks, q, p2)
            } else {
                None
            }
        },
        None => None,
    }
}

/// The text of a query as an SQL condition on the tag `name` column.
pub open spec fn sql_condition(q: Query) -> Seq<char>
    decreases q,
{
    match q {
        Query::And(l, r) => "("@ + sql_condition(*l) + " AND "@ + sql_condition(*r) + ")"@,
        Query::Or(l, r) => "("@ + sql_condition(*l) + " OR "@ + sql_condition(*r) + ")"@,
        Query::Not(e) => "(NOT "@ + sql_condition(*e) + ")"@,
        Query::Name(n) => "name = \'"@ + n + "\'"@,
    }
}

impl AST {
    /// Writes the query as an SQL condition: `(l AND r)`, `(l OR r)`,
    /// `(NOT e)`, and `name = 'n'` for a name.
    pub fn to_string(&self) -> (res: String)
        ensures
            res@ == sql_condition(self@),
        decreases self,
    {
        match self {
            AST::AND(l, r) => {
                let mut res = String::new();
                res.append("(");
                res.append(l.to_string().as_str());
                res.append(" AND ");
                res.append(r.to_string().as_str());
                res.append(")");
                res
            },
            AST::OR(l, r) => {
                let mut res = String::new();
                res.append("(");
                res.append(l.to_string().as_str());
                res.append(" OR ");
                res.append(r.to_string().as_str());
                res.append(")");
                res
            },
            AST::NOT(e) => {
                let mut res = String::new();
                res.append("(NOT ");
                res.append(e.to_string().as_str());
                res.append(")");
                res
            },
            AST::VAL(n) => {
                let mut res = String::new();
                res.append("name = \'");
                res.append(n.as_str());
                res.append("\'");
                res
            },
        }
    }

    /// Parses a query text; refuses a text that is not a sentence of the
    /// language.
    pub fn try_parse_query(ts: &str) -> (res: Result<AST, QueryError>)
        ensures
            match res {
                Ok(a) => query_of_text(ts@) == Some(a@),
                Err(e) => query_of_text(ts@) is None && e == QueryError::ParseFailed,
            },
    {
        let toks = tokenize(ts);
        match parse_or_exec(&toks, 0) {
            Some((a, p)) => {
                if p == toks.len() {
                    Ok(a)
                } else {
                    Err(QueryError::ParseFailed)
                }
            },
            None => Err(QueryError::ParseFailed),
        }
    }

    /// Parses a query text that is a sentence of the language.
    pub fn parse_query(ts: &str) -> (res: AST)
        requires
            query_of_text(ts@) is Some,
        ensures
            query_of_text(ts@) == Some(res@),
    {
        match AST::try_parse_query(ts) {
            Ok(a) => a,
            Err(_) => {
                assert(false);
                AST::VAL(String::new())
            },
        }
    }
}

// ---------------------------------------------------------------------------
// Every query can be written down and read back
// ---------------------------------------------------------------------------

/// A name that the language can write: not empty, only word characters, and
/// not a keyword.
pub open spec fn writable_name(w: Seq<char>) -> bool {
    &&& w.len() > 0
    &&& forall|k: int| 0 <= k < w.len() ==> is_word_char(#[trigger] w[k])
    &&& w != seq!['A', 'N', 'D']
    &&& w != seq!['O', 'R']
    &&& w != seq!['N', 'O', 'T']
}

/// Every name in the query is writable.
pub open spec fn writable(q: Query) -> bool
    decreases q,
{
    match q {
        Query::And(l, r) => writable(*l) && writable(*r),
        Query::Or(l, r) => writable(*l) && writable(*r),
        Query::Not(e) => writable(*e),
        Query::Name(w) => writable_name(w),
    }
}

/// The fully parenthesised text of a query: `(l AND r)`, `(l OR r)`,
/// `NOT e`, and a name as itself.
pub open spec fn query_text(q: Query) -> Seq<char>
    decreases q,
{
    match q {
        Query::And(l, r) => seq!['('] + query_text(*l) + seq![' ', 'A', 'N', 'D', ' '] + query_text(*r)
            + seq![')'],
        Query::Or(l, r) => seq!['('] + query_text(*l) + seq![' ', 'O', 'R', ' '] + query_text(*r)
            + seq![')'],
        Query::Not(e) => seq!['N', 'O', 'T', ' '] + query_text(*e),
        Query::Name(w) => w,
    }
}

/// The tokens of the fully parenthesised text of a query.
pub open spec fn query_tokens(q: Query) -> Seq<Tok>
    decreases q,
{
    match q {
        Query::And(l, r) => seq![Tok::LParen] + query_tokens(*l) + seq![Tok::And] + query_tokens(*r)
            + seq![Tok::RParen],
        Query::Or(l, r) => seq![Tok::LParen] + query_tokens(*l) + seq![Tok::Or] + query_tokens(*r)
            + seq![Tok::RParen],
        Query::Not(e) => seq![Tok::Not] + query_tokens(*e),
        Query::Name(w) => seq![Tok::Word(w)],
    }
}

/// A piece of a matched stretch is matched where the piece stands.
proof fn lemma_piece_of_match<A>(t: Seq<A>, p: int, whole: Seq<A>, off: int, piece: Seq<A>)
    requires
        0 <= p,
        p + whole.len() <= t.len(),
        t.subrange(p, p + whole.len()) == whole,
        0 <= off,
        off + piece.len() <= whole.len(),
        whole.subrange(off, off + piece.len()) == piece,
    ensures
        t.subrange(p + off, p + off + piece.len()) == piece,
{
    assert forall|k: int| 0 <= k < piece.len() implies t.subrange(p + off, p + off + piece.len())[k]
        == piece[k] by {
        assert(t.subrange(p, p + whole.len())[off + k] == whole[off + k]);
        assert(whole.subrange(off, off + piece.len())[k] == whole[off + k]);
    }
    assert(t.subrange(p + off, p + off + piece.len()) =~= piece);
}

proof fn lemma_query_tokens_nonempty(q: Query)
    ensures
        query_tokens(q).len() >= 1,
    decreases q,
{
    match q {
        Query::And(l, r) => {},
        Query::Or(l, r) => {},
        Query::Not(e) => {},
        Query::Name(w) => {},
    }
}

/// Where the tokens of `q` stand at `p`, a `not_expr` is read there: `q`.
proof fn lemma_parse_query_tokens(q: Query, t: Seq<Tok>, p: int)
    requires
        0 <= p,
        p + query_tokens(q).len() <= t.len(),
        t.subrange(p, p + query_tokens(q).len()) == query_tokens(q),
    ensures
        parse_not(t, p) == Some((q, p + query_tokens(q).len())),
    decreases q,
{
    let n: int = query_tokens(q).len() as int;
    assert(t[p] == query_tokens(q)[0]);
    match q {
        Query::Name(w) => {},
        Query::Not(e) => {
            let ne: int = query_tokens(*e).len() as int;
            assert(query_tokens(q).subrange(1, 1 + ne) =~= query_tokens(*e));
            lemma_piece_of_match(t, p, query_tokens(q), 1, query_tokens(*e));
            lemma_parse_query_tokens(*e, t, p + 1);
        },
        Query::And(l, r) => {
            let nl: int = query_tokens(*l).len() as int;
            let nr: int = query_tokens(*r).len() as int;
            lemma_query_tokens_nonempty(*l);
            lemma_query_tokens_nonempty(*r);
            let p1: int = p + 1 + nl;
            let p2: int = p1 + 1 + nr;
            assert(query_tokens(q).subrange(1, 1 + nl) =~= query_tokens(*l));
            assert(query_tokens(q).subrange(2 + nl, 2 + nl + nr) =~= query_tokens(*r));
            lemma_piece_of_match(t, p, query_tokens(q), 1, query_tokens(*l));
            lemma_piece_of_match(t, p, query_tokens(q), 2 + nl, query_tokens(*r));
            assert(t[p1] == query_tokens(q)[1 + nl]);
            assert(t[p2] == query_tokens(q)[n - 1]);
            lemma_parse_query_tokens(*l, t, p + 1);
            lemma_parse_query_tokens(*r, t, p1 + 1);
            assert(parse_and_rest(t, q, p2) == Some((q, p2)));
            assert(parse_and_rest(t, *l, p1) == Some((q, p2)));
            assert(parse_and(t, p + 1) == Some((q, p2)));
            assert(parse_or_rest(t, q, p2) == Some((q, p2)));
            assert(parse_or(t, p + 1) == Some((q, p2)));
            assert(parse_primary(t, p) == Some((q, p2 + 1)));
        },
        Query::Or(l, r) => {
            let nl: int = query_tokens(*l).len() as int;
            let nr: int = query_tokens(*r).len() as int;
            lemma_query_tokens_nonempty(*l);
            lemma_query_tokens_nonempty(*r);
            let p1: int = p + 1 + nl;
            let p2: int = p1 + 1 + nr;
            assert(query_tokens(q).subrange(1, 1 + nl) =~= query_tokens(*l));
            assert(query_tokens(q).subrange(2 + nl, 2 + nl + nr) =~= query_tokens(*r));
            lemma_piece_of_match(t, p, query_tokens(q), 1, query_tokens(*l));
            lemma_piece_of_match(t, p, query_tokens(q), 2 + nl, query_tokens(*r));
            assert(t[p1] == query_tokens(q)[1 + nl]);
            assert(t[p2] == query_tokens(q)[n - 1]);
            lemma_parse_query_tokens(*l, t, p + 1);
            lemma_parse_query_tokens(*r, t, p1 + 1);
            assert(parse_and_rest(t, *l, p1) == Some((*l, p1)));
            assert(parse_and(t, p + 1) == Some((*l, p1)));
            assert(parse_and_rest(t, *r, p2) == Some((*r, p2)));
            assert(parse_and(t, p1 + 1) == Some((*r, p2)));
            assert(parse_or_rest(t, q, p2) == Some((q, p2)));
            assert(parse_or_rest(t, *l, p1) == Some((q, p2)));
            assert(parse_or(t, p + 1) == Some((q, p2)));
            assert(parse_primary(t, p) == Some((q, p2 + 1)));
        },
    }
}

/// The grammar reads the tokens of every query back as that query.
pub proof fn lemma_query_tokens_read_back(q: Query)
    ensures
        parse_tokens(query_tokens(q)) == Some(q),
{
    let t = query_tokens(q);
    assert(t.subrange(0, t.len() as int) =~= t);
    lemma_parse_query_tokens(q, t, 0);
    assert(parse_and(t, 0) == Some((q, t.len() as int)));
    assert(parse_or(t, 0) == Some((q, t.len() as int)));
}

proof fn lemma_word_end_run(s: Seq<char>, i: int, j: int)
    requires
        0 <= i <= j <= s.len(),
        forall|k: int| i <= k < j ==> is_word_char(#[trigger] s[k]),
        j == s.len() || !is_word_char(s[j]),
    ensures
        word_end(s, i) == j,
    decreases j - i,
{
    if i < j {
        lemma_word_end_run(s, i + 1, j);
    }
}

proof fn lemma_query_text_nonempty(q: Query)
    requires
        writable(q),
    ensures
        query_text(q).len() >= 1,
    decreases q,
{
    match q {
        Query::And(l, r) => {},
        Query::Or(l, r) => {},
        Query::Not(e) => {},
        Query::Name(w) => {},
    }
}

/// Lexing a keyword followed by a blank at `a`.
proof fn lemma_lex_keyword(s: Seq<char>, a: int, kw: Seq<char>, tok: Tok)
    requires
        0 <= a,
        a + kw.len() + 1 <= s.len(),
        kw.len() > 0,
        s.subrange(a, a + kw.len()) == kw,
        forall|k: int| 0 <= k < kw.len() ==> is_word_char(#[trigger] kw[k]),
        s[a + kw.len()] == ' ',
        classify(kw) == tok,
    ensures
        lex_from(s, a) == seq![tok] + lex_from(s, a + kw.len() + 1),
{
    let e: int = a + kw.len();
    assert forall|k: int| a <= k < e implies is_word_char(#[trigger] s[k]) by {
        assert(s.subrange(a, e)[k - a] == kw[k - a]);
    }
    lemma_word_end_run(s, a, e);
    assert(s[a] == kw[0]) by {
        assert(s.subrange(a, e)[0] == kw[0]);
    }
    assert(lex_from(s, e) == lex_from(s, e + 1));
}

/// Where the fully parenthesised text of `q` stands at `i`, followed by the
/// end or by a character that cannot continue a word, its tokens are lexed.
proof fn lemma_lex_query_text(q: Query, s: Seq<char>, i: int)
    requires
        writable(q),
        0 <= i,
        i + query_text(q).len() <= s.len(),
        s.subrange(i, i + query_text(q).len()) == query_text(q),
        i + query_text(q).len() == s.len() || !is_word_char(s[i + query_text(q).len()]),
    ensures
        lex_from(s, i) == query_tokens(q) + lex_from(s, i + query_text(q).len()),
    decreases q,
{
    let x = query_text(q);
    let m: int = x.len() as int;
    assert forall|k: int| 0 <= k < m implies s[i + k] == x[k] by {
        assert(s.subrange(i, i + m)[k] == x[k]);
    }
    match q {
        Query::Name(w) => {
            assert forall|k: int| i <= k < i + m implies is_word_char(#[trigger] s[k]) by {
                assert(s.subrange(i, i + m)[k - i] == w[k - i]);
            }
            lemma_word_end_run(s, i, i + m);
            assert(s[i] == w[0]);
            assert(s.subrange(i, i + m) == w);
        },
        Query::Not(e) => {
            let te = query_text(*e);
            let ne: int = te.len() as int;
            lemma_query_text_nonempty(*e);
            let kw = seq!['N', 'O', 'T'];
            assert(x.subrange(0, 3) =~= kw);
            lemma_piece_of_match(s, i, x, 0, kw);
            assert(s[i + 3] == x[3]);
            lemma_lex_keyword(s, i, kw, Tok::Not);
            assert(x.subrange(4, 4 + ne) =~= te);
            lemma_piece_of_match(s, i, x, 4, te);
            lemma_lex_query_text(*e, s, i + 4);
            assert(query_tokens(q) =~= seq![Tok::Not] + query_tokens(*e));
        },
        Query::And(l, r) => {
            let tl = query_text(*l);
            let tr = query_text(*r);
            let nl: int = tl.len() as int;
            let nr: int = tr.len() as int;
            lemma_query_text_nonempty(*l);
            lemma_query_text_nonempty(*r);
            let a: int = i + 1 + nl;
            let b: int = a + 5 + nr;
            assert(s[i] == x[0]);
            assert(x.subrange(1, 1 + nl) =~= tl);
            lemma_piece_of_match(s, i, x, 1, tl);
            assert(s[a] == x[1 + nl]);
            lemma_lex_query_text(*l, s, i + 1);
            assert(lex_from(s, a) == lex_from(s, a + 1));
            let kw = seq!['A', 'N', 'D'];
            assert(x.subrange(2 + nl, 5 + nl) =~= kw);
            lemma_piece_of_match(s, i, x, 2 + nl, kw);
            assert(s[a + 4] == x[5 + nl]);
            lemma_lex_keyword(s, a + 1, kw, Tok::And);
            assert(x.subrange(6 + nl, 6 + nl + nr) =~= tr);
            lemma_piece_of_match(s, i, x, 6 + nl, tr);
            assert(s[b] == x[m - 1]);
            lemma_lex_query_text(*r, s, a + 5);
            assert(lex_from(s, b) == seq![Tok::RParen] + lex_from(s, b + 1));
            assert(query_tokens(q) =~= seq![Tok::LParen] + query_tokens(*l) + seq![Tok::And]
                + query_tokens(*r) + seq![Tok::RParen]);
        },
        Query::Or(l, r) => {
            let tl = query_text(*l);
            let tr = query_text(*r);
            let nl: int = tl.len() as int;
            let nr: int = tr.len() as int;
            lemma_query_text_nonempty(*l);
            lemma_query_text_nonempty(*r);
            let a: int = i + 1 + nl;
            let b: int = a + 4 + nr;
            assert(s[i] == x[0]);
            assert(x.subrange(1, 1 + nl) =~= tl);
            lemma_piece_of_match(s, i, x, 1, tl);
            assert(s[a] == x[1 + nl]);
            lemma_lex_query_text(*l, s, i + 1);
            assert(lex_from(s, a) == lex_from(s, a + 1));
            let kw = seq!['O', 'R'];
            assert(x.subrange(2 + nl, 4 + nl) =~= kw);
            lemma_piece_of_match(s, i, x, 2 + nl, kw);
            assert(s[a + 3] == x[4 + nl]);
            lemma_lex_keyword(s, a + 1, kw, Tok::Or);
            assert(x.subrange(5 + nl, 5 + nl + nr) =~= tr);
            lemma_piece_of_match(s, i, x, 5 + nl, tr);
            assert(s[b] == x[m - 1]);
            lemma_lex_query_text(*r, s, a + 4);
            assert(lex_from(s, b) == seq![Tok::RParen] + lex_from(s, b + 1));
            assert(query_tokens(q) =~= seq![Tok::LParen] + query_tokens(*l) + seq![Tok::Or]
                + query_tokens(*r) + seq![Tok::RParen]);
        },
    }
}

/// Every query whose names can be written is read back from its fully
/// parenthesised text: the language can express every query, and that
/// text means nothing else.
pub proof fn lemma_query_text_read_back(q: Query)
    requires
        writable(q),
    ensures
        query_of_text(query_text(q)) == Some(q),
{
    let s = query_text(q);
    assert(s.subrange(0, s.len() as int) =~= s);
    lemma_lex_query_text(q, s, 0);
    assert(lex(s) =~= query_tokens(q));
    lemma_query_tokens_read_back(q);
}

/// A name is read exactly as written: a text that is one writable name is
/// the query of that very name, character for character.
pub proof fn lemma_name_read_verbatim(w: Seq<char>)
    requires
        writable_name(w),
    ensures
        query_of_text(w) == Some(Query::Name(w)),
{
    assert(writable(Query::Name(w)));
    assert(query_text(Query::Name(w)) == w);
    lemma_query_text_read_back(Query::Name(w));
}

} // verus!
