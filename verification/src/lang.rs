//! A toy language front end: a token stream and a recursive-descent
//! parser for the grammar
//!
//! ```text
//! prog      = (fnDecl | fnCall)* ;
//! fnDecl    : "fn" Identifier '(' ')' fnBody ;
//! fnBody    : '{' fnCall* '}' ;
//! fnCall    : Identifier '(' paramList? ')' ';' ;
//! paramList : StringLiteral (',' StringLiteral)* ;
//! ```
//!
//! A parse function either recognises its production (and moves past it),
//! or does not recognise it and restores the position, or meets a token
//! that no program can continue with: the last case is an error.

use vstd::prelude::*;
use crate::text::str_eq;
use vstd::string::StringExecFns;

verus! {

#[derive(Debug, Clone, Copy, PartialEq, Eq, Structural)]
pub enum TokenType {
    Keyword,
    Identifier,
    StringLiteral,
    Seperator,
    Operator,
    EOF,
}

#[derive(Debug, Clone, Copy)]
pub struct Token {
    pub kind: TokenType,
    pub text: &'static str,
}

impl Token {
    pub fn new(kind: TokenType, text: &'static str) -> (t: Self)
        ensures
            t.kind == kind,
            t.text == text,
    {
        Self { kind, text }
    }
}

/// The position that `next` moves to from `pos` in a stream of `len` tokens:
/// one further, except at the end, where the last token is handed out again.
pub open spec fn advance(len: int, pos: int) -> int {
    if pos < len {
        pos + 1
    } else {
        pos
    }
}

/// A simplified lexer: the parser takes its tokens from here.
pub struct Tokenizer {
    tokens: Vec<Token>,
    pos: usize,
}

impl Tokenizer {
    pub closed spec fn tokens(&self) -> Seq<Token> {
        self.tokens@
    }

    pub closed spec fn pos(&self) -> int {
        self.pos as int
    }

    /// The tokenizer can hand out a token: it has one, and its position
    /// does not lie past the end.
    pub open spec fn ready(&self) -> bool {
        &&& self.tokens().len() > 0
        &&& self.pos() <= self.tokens().len()
    }

    pub fn new(tokens: Vec<Token>) -> (t: Self)
        ensures
            t.tokens() == tokens@,
            t.pos() == 0,
    {
        Self { tokens: tokens, pos: 0 }
    }

    /// Moves one token on (but not past the last one) and returns the token
    /// just passed.
    pub fn next(&mut self) -> (t: &Token)
        requires
            old(self).ready(),
        ensures
            final(self).tokens() == old(self).tokens(),
            final(self).pos() == advance(old(self).tokens().len() as int, old(self).pos()),
            *t == final(self).tokens()[final(self).pos() - 1],
    {
        if self.pos < self.tokens.len() {
            self.pos += 1;
        }
        &self.tokens[self.pos - 1]
    }

    /// The token `offset` places after the position, or the last token when
    /// that lies past the end.
    pub fn token(&self, offset: usize) -> (t: &Token)
        requires
            self.tokens().len() > 0,
            self.pos() + offset <= usize::MAX,
        ensures
            *t == self.tokens()[if self.pos() + offset < self.tokens().len() {
                self.pos() + offset
            } else {
                self.tokens().len() - 1
            }],
    {
        let mut pos = self.pos + offset;
        if pos >= self.tokens.len() {
            pos = self.tokens.len() - 1;
        }
        &self.tokens[pos]
    }

    pub fn position(&self) -> (p: usize)
        ensures
            p == self.pos(),
    {
        self.pos
    }

    pub fn set_position(&mut self, new_pos: usize)
        ensures
            final(self).tokens() == old(self).tokens(),
            final(self).pos() == new_pos,
    {
        self.pos = new_pos;
    }

    pub fn forwards(&mut self, offset: usize)
        requires
            old(self).pos() + offset <= usize::MAX,
        ensures
            final(self).tokens() == old(self).tokens(),
            final(self).pos() == old(self).pos() + offset,
    {
        self.pos += offset;
    }
}


/// `b` is where a call of `next` or of `forwards` can take `a`: the tokens
/// stay, and the position moves on as one of the two says.
pub open spec fn moves_on(a: Tokenizer, b: Tokenizer) -> bool {
    &&& b.tokens() == a.tokens()
    &&& (b.pos() == advance(a.tokens().len() as int, a.pos()) || b.pos() >= a.pos())
}

/// Going back undoes moving on: after any run of `next` and `forwards` calls,
/// `set_position` with the position the run started from gives back the
/// tokenizer as it was, so the next token it hands out is the one it handed
/// out first.
pub proof fn lemma_set_position_restores(run: Seq<Tokenizer>, back: Tokenizer)
    requires
        run.len() > 0,
        forall|i: int| 0 <= i < run.len() - 1 ==> #[trigger] moves_on(run[i], run[i + 1]),
        back.tokens() == run.last().tokens(),
        back.pos() == run[0].pos(),
    ensures
        back.tokens() == run[0].tokens(),
        back.pos() == run[0].pos(),
        run[0].ready() ==> back.ready() && back.tokens()[advance(back.tokens().len() as int, back.pos()) - 1]
            == run[0].tokens()[advance(run[0].tokens().len() as int, run[0].pos()) - 1],
    decreases run.len(),
{
    if run.len() > 1 {
        let shorter = run.drop_last();
        assert forall|i: int| 0 <= i < shorter.len() - 1 implies #[trigger] moves_on(shorter[i], shorter[i + 1]) by {
            assert(moves_on(run[i], run[i + 1]));
        }
        let k = run.len() - 2;
        assert(moves_on(run[k], run[k + 1]));
        assert(run[k + 1] == run.last());
        assert(shorter.last() == run[k]);
        lemma_set_position_restores(shorter, back);
    }
}

#[derive(Debug)]
pub enum Statement {
    FnBody { stmts: Option<Vec<Statement>> },
    FnDecl { name: &'static str, body: Box<Statement> },
    FnCall { name: &'static str, params: Option<Vec<&'static str>>, decl: Option<Box<Statement>> },
}

impl Statement {
    /// A function body; an empty list of statements is kept as `None`.
    pub fn fn_body(stmts: Vec<Statement>) -> (s: Self)
        ensures
            s == (if stmts@.len() == 0 {
                Statement::FnBody { stmts: None }
            } else {
                Statement::FnBody { stmts: Some(stmts) }
            }),
    {
        if stmts.len() == 0 {
            Self::FnBody { stmts: None }
        } else {
            Self::FnBody { stmts: Some(stmts) }
        }
    }

    pub fn fn_decl(name: &'static str, body: Statement) -> (s: Self)
        ensures
            s == (Statement::FnDecl { name, body: Box::new(body) }),
    {
        Self::FnDecl { name, body: Box::new(body) }
    }

    /// A call that is not yet resolved to a declaration; an empty parameter
    /// list is kept as `None`.
    pub fn fn_call(name: &'static str, params: Vec<&'static str>) -> (s: Self)
        ensures
            s == (if params@.len() == 0 {
                Statement::FnCall { name, params: None, decl: None }
            } else {
                Statement::FnCall { name, params: Some(params), decl: None }
            }),
    {
        if params.len() == 0 {
            Self::FnCall { name, params: None, decl: None }
        } else {
            Self::FnCall { name, params: Some(params), decl: None }
        }
    }
}

/// The abstract syntax of a call: the function's name and the texts of its
/// string-literal arguments.
pub struct CallAst {
    pub name: Seq<char>,
    pub params: Seq<Seq<char>>,
}

/// The abstract syntax of a top-level statement.
pub enum StmtAst {
    Decl { name: Seq<char>, body: Seq<CallAst> },
    Call { call: CallAst },
}

pub open spec fn texts(v: Seq<&'static str>) -> Seq<Seq<char>> {
    v.map_values(|s: &'static str| s@)
}

/// `s` is the statement that stands for the call `c`.
pub open spec fn is_call(s: Statement, c: CallAst) -> bool {
    match s {
        Statement::FnCall { name, params, decl } => {
            &&& name@ == c.name
            &&& decl is None
            &&& match params {
                None => c.params.len() == 0,
                Some(p) => c.params.len() > 0 && texts(p@) == c.params,
            }
        },
        _ => false,
    }
}

/// `s` is the function body that holds the calls `calls`.
pub open spec fn is_body(s: Statement, calls: Seq<CallAst>) -> bool {
    match s {
        Statement::FnBody { stmts } => match stmts {
            None => calls.len() == 0,
            Some(v) => {
                &&& calls.len() > 0
                &&& v@.len() == calls.len()
                &&& forall|i: int| 0 <= i < calls.len() ==> is_call(#[trigger] v@[i], calls[i])
            },
        },
        _ => false,
    }
}

/// `s` is the statement that stands for `a`.
pub open spec fn is_stmt(s: Statement, a: StmtAst) -> bool {
    match a {
        StmtAst::Decl { name, body } => match s {
            Statement::FnDecl { name: n, body: b } => n@ == name && is_body(*b, body),
            _ => false,
        },
        StmtAst::Call { call } => is_call(s, call),
    }
}

/// Why a token stream cannot be parsed on; each holds the offending token's
/// text where there is one.
#[derive(Debug, Clone, Copy, PartialEq, Eq)]
pub enum ParseError {
    /// A function body does not end with `}`.
    MissingCloseBrace(&'static str),
    /// A declaration's name is not followed by `(`.
    MissingOpenParen(&'static str),
    /// A declaration's `(` is not followed by `)`.
    MissingCloseParen(&'static str),
    /// A string literal was expected in a parameter list.
    MissingParameter(&'static str),
    /// A parameter is followed by neither `,` nor `)`.
    MissingComma(&'static str),
    /// A call is not followed by `;`.
    MissingSemicolon(&'static str),
    /// The stream ends inside a parameter list whose last token is a string
    /// literal `,`: no closing `)` can ever come.
    Unterminated,
    /// The stream is empty or the position lies past its end.
    NoToken,
}

impl ParseError {
    /// The text that explains the error.
    pub open spec fn spec_message(self) -> Seq<char> {
        match self {
            ParseError::MissingCloseBrace(t) => "Expecting '}' in FunctionBody, while we got a "@ + t@,
            ParseError::MissingOpenParen(t) => "Expecting '(' in FunctionDecl, while we got a "@ + t@,
            ParseError::MissingCloseParen(t) => "Expecting ')' in FunctionDecl, while we got a "@ + t@,
            ParseError::MissingParameter(t) => "Expecting parameter in FunctionCall, while we got a "@ + t@,
            ParseError::MissingComma(t) => "Expecting a comma in FunctionCall, while we got a "@ + t@,
            ParseError::MissingSemicolon(t) => "Expecting a semicolon in FunctionCall, while we got a "@ + t@,
            ParseError::Unterminated => "Unterminated parameter list in FunctionCall"@,
            ParseError::NoToken => "No token to read at the parser's position"@,
        }
    }

    pub fn message(&self) -> (m: String)
        ensures
            m@ == self.spec_message(),
    {
        match *self {
            ParseError::MissingCloseBrace(t) => {
                let mut m = String::from_str("Expecting '}' in FunctionBody, while we got a ");
                m.append(t);
                m
            },
            ParseError::MissingOpenParen(t) => {
                let mut m = String::from_str("Expecting '(' in FunctionDecl, while we got a ");
                m.append(t);
                m
            },
            ParseError::MissingCloseParen(t) => {
                let mut m = String::from_str("Expecting ')' in FunctionDecl, while we got a ");
                m.append(t);
                m
            },
            ParseError::MissingParameter(t) => {
                let mut m = String::from_str("Expecting parameter in FunctionCall, while we got a ");
                m.append(t);
                m
            },
            ParseError::MissingComma(t) => {
                let mut m = String::from_str("Expecting a comma in FunctionCall, while we got a ");
                m.append(t);
                m
            },
            ParseError::MissingSemicolon(t) => {
                let mut m = String::from_str("Expecting a semicolon in FunctionCall, while we got a ");
                m.append(t);
                m
            },
            ParseError::Unterminated => String::from_str("Unterminated parameter list in FunctionCall"),
            ParseError::NoToken => String::from_str("No token to read at the parser's position"),
        }
    }
}

/// What a parse function does from a position: it does not recognise its
/// production (and comes back to where it started), it recognises it and
/// ends at the given position, or it cannot go on (the token stream is
/// malformed there).
pub enum Step<A> {
    NoMatch,
    Matched(A, int),
    Stuck(ParseError),
}

/// The text of the token handed out when `next` moves to `p`.
pub open spec fn text_at(toks: Seq<Token>, p: int) -> Seq<char> {
    toks[p - 1].text@
}

pub open spec fn kind_at(toks: Seq<Token>, p: int) -> TokenType {
    toks[p - 1].kind
}

/// The parameter list, from the state in which the token at `q` has just been
/// read (and is not yet consumed) and `acc` holds the parameters read so far.
pub open spec fn spec_params(toks: Seq<Token>, q: int, acc: Seq<Seq<char>>) -> Step<Seq<Seq<char>>>
    decreases toks.len() - q,
{
    if q < 1 || q > toks.len() {
        Step::Stuck(ParseError::NoToken)
    } else if text_at(toks, q) == ")"@ {
        Step::Matched(acc, q)
    } else if kind_at(toks, q) != TokenType::StringLiteral {
        Step::Stuck(ParseError::MissingParameter(toks[q - 1].text))
    } else if q >= toks.len() {
        // the last token is handed out over and over: no closing ')' comes
        if text_at(toks, q) == ","@ {
            Step::Stuck(ParseError::Unterminated)
        } else {
            Step::Stuck(ParseError::MissingComma(toks[q - 1].text))
        }
    } else {
        let acc2 = acc.push(text_at(toks, q));
        let q1 = q + 1;
        if text_at(toks, q1) == ")"@ {
            Step::Matched(acc2, q1)
        } else if text_at(toks, q1) == ","@ {
            let q2 = advance(toks.len() as int, q1);
            if text_at(toks, q2) == ")"@ {
                // a comma must be followed by a parameter
                Step::Stuck(ParseError::MissingParameter(toks[q2 - 1].text))
            } else {
                spec_params(toks, q2, acc2)
            }
        } else {
            Step::Stuck(ParseError::MissingComma(toks[q1 - 1].text))
        }
    }
}

/// `fnCall : Identifier '(' paramList? ')' ';'` from position `p`.
pub open spec fn spec_call(toks: Seq<Token>, p: int) -> Step<CallAst> {
    let len = toks.len() as int;
    let p1 = advance(len, p);
    if kind_at(toks, p1) != TokenType::Identifier {
        Step::NoMatch
    } else {
        let p2 = advance(len, p1);
        if text_at(toks, p2) != "("@ {
            Step::NoMatch
        } else {
            let p3 = advance(len, p2);
            match spec_params(toks, p3, Seq::empty()) {
                Step::Matched(ps, q) => {
                    let q1 = advance(len, q);
                    if text_at(toks, q1) == ";"@ {
                        Step::Matched(CallAst { name: text_at(toks, p1), params: ps }, q1)
                    } else {
                        Step::Stuck(ParseError::MissingSemicolon(toks[q1 - 1].text))
                    }
                },
                Step::Stuck(e) => Step::Stuck(e),
                Step::NoMatch => Step::NoMatch,
            }
        }
    }
}

/// `fnCall*` from position `q`, after the calls `acc`.
pub open spec fn spec_calls(toks: Seq<Token>, q: int, acc: Seq<CallAst>) -> Step<Seq<CallAst>>
    decreases toks.len() - q,
{
    match spec_call(toks, q) {
        Step::Stuck(e) => Step::Stuck(e),
        Step::NoMatch => Step::Matched(acc, q),
        Step::Matched(c, q2) => if q < q2 <= toks.len() {
            spec_calls(toks, q2, acc.push(c))
        } else {
            Step::Stuck(ParseError::NoToken)
        },
    }
}

/// `fnBody : '{' fnCall* '}'` from position `p`.
pub open spec fn spec_body(toks: Seq<Token>, p: int) -> Step<Seq<CallAst>> {
    let len = toks.len() as int;
    let p1 = advance(len, p);
    if text_at(toks, p1) != "{"@ {
        Step::NoMatch
    } else {
        match spec_calls(toks, p1, Seq::empty()) {
            Step::Matched(cs, q) => {
                let q1 = advance(len, q);
                if text_at(toks, q1) == "}"@ {
                    Step::Matched(cs, q1)
                } else {
                    Step::Stuck(ParseError::MissingCloseBrace(toks[q1 - 1].text))
                }
            },
            Step::Stuck(e) => Step::Stuck(e),
            Step::NoMatch => Step::NoMatch,
        }
    }
}

/// `fnDecl : "fn" Identifier '(' ')' fnBody` from position `p`.
pub open spec fn spec_decl(toks: Seq<Token>, p: int) -> Step<StmtAst> {
    let len = toks.len() as int;
    let p1 = advance(len, p);
    if !(kind_at(toks, p1) == TokenType::Keyword && text_at(toks, p1) == "fn"@) {
        Step::NoMatch
    } else {
        let p2 = advance(len, p1);
        if kind_at(toks, p2) != TokenType::Identifier {
            Step::NoMatch
        } else {
            let p3 = advance(len, p2);
            if text_at(toks, p3) != "("@ {
                Step::Stuck(ParseError::MissingOpenParen(toks[p3 - 1].text))
            } else {
                let p4 = advance(len, p3);
                if text_at(toks, p4) != ")"@ {
                    Step::Stuck(ParseError::MissingCloseParen(toks[p4 - 1].text))
                } else {
                    match spec_body(toks, p4) {
                        Step::Matched(cs, q) => Step::Matched(
                            StmtAst::Decl { name: text_at(toks, p2), body: cs },
                            q,
                        ),
                        Step::NoMatch => Step::NoMatch,
                        Step::Stuck(e) => Step::Stuck(e),
                    }
                }
            }
        }
    }
}

/// `prog = (fnDecl | fnCall)*` from position `p`, after the statements `acc`.
pub open spec fn spec_prog(toks: Seq<Token>, p: int, acc: Seq<StmtAst>) -> Step<Seq<StmtAst>>
    decreases toks.len() - p,
{
    match spec_decl(toks, p) {
        Step::Stuck(e) => Step::Stuck(e),
        Step::Matched(d, q) => if p < q <= toks.len() {
            spec_prog(toks, q, acc.push(d))
        } else {
            Step::Stuck(ParseError::NoToken)
        },
        Step::NoMatch => match spec_call(toks, p) {
            Step::Stuck(e) => Step::Stuck(e),
            Step::Matched(c, q) => if p < q <= toks.len() {
                spec_prog(toks, q, acc.push(StmtAst::Call { call: c }))
            } else {
                Step::Stuck(ParseError::NoToken)
            },
            Step::NoMatch => Step::Matched(acc, p),
        },
    }
}

pub open spec fn valid_pos(toks: Seq<Token>, p: int) -> bool {
    toks.len() > 0 && 0 <= p <= toks.len()
}

proof fn lemma_params_bounds(toks: Seq<Token>, q: int, acc: Seq<Seq<char>>)
    ensures
        spec_params(toks, q, acc) matches Step::Matched(_, q2) ==> q <= q2 <= toks.len(),
        !(spec_params(toks, q, acc) is NoMatch),
    decreases toks.len() - q,
{
    if 1 <= q < toks.len() && text_at(toks, q) != ")"@ && kind_at(toks, q) == TokenType::StringLiteral {
        let q2 = advance(toks.len() as int, q + 1);
        if text_at(toks, q + 1) != ")"@ && text_at(toks, q + 1) == ","@ && text_at(toks, q2) != ")"@ {
            lemma_params_bounds(toks, q2, acc.push(text_at(toks, q)));
        }
    }
}

/// A recognised call lies after its start and within the stream.
pub proof fn lemma_call_advances(toks: Seq<Token>, p: int)
    requires
        valid_pos(toks, p),
    ensures
        spec_call(toks, p) matches Step::Matched(_, q) ==> p < q <= toks.len(),
{
    let len = toks.len() as int;
    let p3 = advance(len, advance(len, advance(len, p)));
    lemma_params_bounds(toks, p3, Seq::empty());
    if p == len {
        // at the end the same token is read as the '(' and as the first
        // parameter: an identifier is no string literal
        lemma_open_close_differ();
    }
}

/// The texts of the tokens `toks[i..j)`.
pub open spec fn texts_between(toks: Seq<Token>, i: int, j: int) -> Seq<Seq<char>> {
    toks.subrange(i, j).map_values(|t: Token| t.text@)
}

/// The parameters `ps` as a parameter list: `,` between each two.
pub open spec fn param_list(ps: Seq<Seq<char>>) -> Seq<Seq<char>>
    decreases ps.len(),
{
    if ps.len() <= 1 {
        ps
    } else {
        seq![ps[0], ","@] + param_list(ps.drop_first())
    }
}

/// The texts of the tokens of the call `c`: its name, `(`, its parameter
/// list, `)` and `;`.
pub open spec fn call_texts(c: CallAst) -> Seq<Seq<char>> {
    seq![c.name, "("@] + param_list(c.params) + seq![")"@, ";"@]
}

proof fn lemma_params_texts(toks: Seq<Token>, q: int, acc: Seq<Seq<char>>)
    requires
        spec_params(toks, q, acc) is Matched,
    ensures
        spec_params(toks, q, acc) matches Step::Matched(ps, r) ==> {
            &&& 1 <= q <= r <= toks.len()
            &&& text_at(toks, r) == ")"@
            &&& ps.len() >= acc.len()
            &&& ps.take(acc.len() as int) == acc
            &&& texts_between(toks, q - 1, r - 1) == param_list(ps.skip(acc.len() as int))
            &&& (r == q <==> ps.len() == acc.len())
        },
    decreases toks.len() - q,
{
    let len = toks.len() as int;
    if text_at(toks, q) == ")"@ {
        assert(texts_between(toks, q - 1, q - 1) =~= Seq::<Seq<char>>::empty());
        assert(acc.skip(acc.len() as int) =~= Seq::<Seq<char>>::empty());
        assert(acc.take(acc.len() as int) =~= acc);
    } else {
        let acc2 = acc.push(text_at(toks, q));
        let q1 = q + 1;
        if text_at(toks, q1) == ")"@ {
            assert(texts_between(toks, q - 1, q1 - 1) =~= seq![text_at(toks, q)]);
            assert(acc2.skip(acc.len() as int) =~= seq![text_at(toks, q)]);
            assert(acc2.take(acc.len() as int) =~= acc);
        } else {
            let q2 = advance(len, q1);
            lemma_params_texts(toks, q2, acc2);
            if let Step::Matched(ps, r) = spec_params(toks, q2, acc2) {
                lemma_open_close_differ();
                assert(q2 == q + 2);
                assert(r > q2) by {
                    if r == q2 {
                        assert(ps.len() == acc2.len());
                    }
                }
                let xs = ps.skip(acc.len() as int);
                assert(ps.take(acc2.len() as int)[acc.len() as int] == text_at(toks, q));
                assert(ps.take(acc.len() as int) =~= acc) by {
                    assert(ps.take(acc2.len() as int).take(acc.len() as int) =~= ps.take(acc.len() as int));
                    assert(acc2.take(acc.len() as int) =~= acc);
                }
                assert(xs.drop_first() =~= ps.skip(acc2.len() as int));
                assert(xs[0] == text_at(toks, q));
                assert(xs.len() >= 2);
                assert(texts_between(toks, q - 1, r - 1) =~= seq![text_at(toks, q), ","@] + texts_between(toks, q2 - 1, r - 1));
            }
        }
    }
}

/// What a recognised call takes is the grammar's call: the tokens it moves
/// past are, one for one, its name (an identifier), `(`, its parameters with
/// `,` between them, `)` and `;`.
pub proof fn lemma_call_texts(toks: Seq<Token>, p: int)
    requires
        valid_pos(toks, p),
    ensures
        spec_call(toks, p) matches Step::Matched(c, e) ==> {
            &&& texts_between(toks, p, e) == call_texts(c)
            &&& toks[p].kind == TokenType::Identifier
        },
{
    let len = toks.len() as int;
    if let Step::Matched(c, e) = spec_call(toks, p) {
        let p1 = advance(len, p);
        let p2 = advance(len, p1);
        let p3 = advance(len, p2);
        lemma_params_texts(toks, p3, Seq::empty());
        if let Step::Matched(ps, r) = spec_params(toks, p3, Seq::empty()) {
            lemma_open_close_differ();
            lemma_close_semicolon_differ();
            assert(r < len);
            assert(p2 < len) by {
                if p2 == len {
                    assert(p3 == p2);
                    assert(kind_at(toks, p3) == TokenType::Identifier);
                }
            }
            assert(p1 == p + 1 && p2 == p + 2 && p3 == p + 3);
            assert(e == r + 1);
            assert(ps.skip(0) =~= ps);
            assert(texts_between(toks, p, e) =~= seq![text_at(toks, p1), "("@] + texts_between(toks, p3 - 1, r - 1) + seq![")"@, ";"@]);
        }
    }
}

/// A trailing comma after the last parameter makes no call: the grammar
/// gets stuck on the `)` that follows the comma.
pub proof fn lemma_trailing_comma_is_no_call(toks: Seq<Token>, p: int)
    requires
        0 <= p,
        p + 5 <= toks.len(),
        toks[p].kind == TokenType::Identifier,
        toks[p + 1].text@ == "("@,
        toks[p + 2].kind == TokenType::StringLiteral,
        toks[p + 2].text@ != ")"@,
        toks[p + 3].text@ == ","@,
        toks[p + 4].text@ == ")"@,
    ensures
        spec_call(toks, p) == Step::<CallAst>::Stuck(ParseError::MissingParameter(toks[p + 4].text)),
{
    lemma_open_close_differ();
    lemma_comma_close_differ();
}

proof fn lemma_comma_close_differ()
    ensures
        ","@ != ")"@,
{
    reveal_strlit(",");
    reveal_strlit(")");
    assert(","@[0] != ")"@[0]);
}

proof fn lemma_close_semicolon_differ()
    ensures
        ")"@ != ";"@,
{
    reveal_strlit(")");
    reveal_strlit(";");
    assert(")"@[0] != ";"@[0]);
}

proof fn lemma_open_close_differ()
    ensures
        "("@ != ")"@,
        "{"@ != "}"@,
{
    reveal_strlit("(");
    reveal_strlit(")");
    reveal_strlit("{");
    reveal_strlit("}");
    assert("("@[0] != ")"@[0]);
    assert("{"@[0] != "}"@[0]);
}

proof fn lemma_calls_bounds(toks: Seq<Token>, q: int, acc: Seq<CallAst>)
    requires
        valid_pos(toks, q),
    ensures
        spec_calls(toks, q, acc) matches Step::Matched(_, q2) ==> q <= q2 <= toks.len(),
        !(spec_calls(toks, q, acc) is NoMatch),
    decreases toks.len() - q,
{
    lemma_call_advances(toks, q);
    if let Step::Matched(c, q2) = spec_call(toks, q) {
        lemma_calls_bounds(toks, q2, acc.push(c));
    }
}

proof fn lemma_body_bounds(toks: Seq<Token>, p: int)
    requires
        valid_pos(toks, p),
    ensures
        spec_body(toks, p) matches Step::Matched(_, q) ==> p < q <= toks.len(),
{
    let p1 = advance(toks.len() as int, p);
    lemma_calls_bounds(toks, p1, Seq::empty());
    if p == toks.len() {
        // at the end the same token is read twice: '{' and then '}'
        lemma_open_close_differ();
        assert(!(spec_call(toks, p1) is Matched)) by {
            lemma_call_advances(toks, p1);
        }
    }
}

/// A program ends where neither a declaration nor a call starts, at or after
/// where it began: the parser takes statements as long as it can.
pub proof fn lemma_prog_stops(toks: Seq<Token>, p: int, acc: Seq<StmtAst>)
    requires
        valid_pos(toks, p),
    ensures
        spec_prog(toks, p, acc) matches Step::Matched(asts, q) ==> {
            &&& p <= q <= toks.len()
            &&& spec_decl(toks, q) is NoMatch
            &&& spec_call(toks, q) is NoMatch
            &&& asts.len() >= acc.len()
            &&& asts.subrange(0, acc.len() as int) == acc
        },
    decreases toks.len() - p,
{
    match spec_decl(toks, p) {
        Step::Matched(d, q) => {
            if p < q <= toks.len() {
                lemma_prog_stops(toks, q, acc.push(d));
                if let Step::Matched(asts, _) = spec_prog(toks, p, acc) {
                    assert(asts.subrange(0, acc.len() as int) =~= asts.subrange(0, acc.len() + 1int).subrange(0, acc.len() as int));
                }
            }
        },
        Step::NoMatch => match spec_call(toks, p) {
            Step::Matched(c, q) => {
                if p < q <= toks.len() {
                    lemma_prog_stops(toks, q, acc.push(StmtAst::Call { call: c }));
                    if let Step::Matched(asts, _) = spec_prog(toks, p, acc) {
                        assert(asts.subrange(0, acc.len() as int) =~= asts.subrange(0, acc.len() + 1int).subrange(0, acc.len() as int));
                    }
                }
            },
            _ => {
                assert(acc.subrange(0, acc.len() as int) =~= acc);
            },
        },
        _ => {},
    }
}

/// The texts of the tokens of the calls `cs`, one call after another.
pub open spec fn calls_texts(cs: Seq<CallAst>) -> Seq<Seq<char>>
    decreases cs.len(),
{
    if cs.len() == 0 {
        Seq::empty()
    } else {
        call_texts(cs[0]) + calls_texts(cs.drop_first())
    }
}

/// The texts of the tokens of a statement: a call, or `fn`, its name, `(`,
/// `)`, `{`, the calls of its body and `}`.
pub open spec fn stmt_texts(a: StmtAst) -> Seq<Seq<char>> {
    match a {
        StmtAst::Decl { name, body } => seq!["fn"@, name, "("@, ")"@, "{"@] + calls_texts(body) + seq!["}"@],
        StmtAst::Call { call } => call_texts(call),
    }
}

/// The texts of the tokens of the statements `asts`, one after another.
pub open spec fn stmts_texts(asts: Seq<StmtAst>) -> Seq<Seq<char>>
    decreases asts.len(),
{
    if asts.len() == 0 {
        Seq::empty()
    } else {
        stmt_texts(asts[0]) + stmts_texts(asts.drop_first())
    }
}

proof fn lemma_texts_split(toks: Seq<Token>, i: int, j: int, k: int)
    requires
        0 <= i <= j <= k <= toks.len(),
    ensures
        texts_between(toks, i, k) == texts_between(toks, i, j) + texts_between(toks, j, k),
{
    assert(texts_between(toks, i, k) =~= texts_between(toks, i, j) + texts_between(toks, j, k));
}

proof fn lemma_semicolon_close_brace_differ()
    ensures
        ";"@ != "}"@,
        "fn"@ != "}"@,
{
    reveal_strlit(";");
    reveal_strlit("}");
    reveal_strlit("fn");
    assert(";"@[0] != "}"@[0]);
    assert("fn"@.len() != "}"@.len());
}

/// The token just before where a recognised call ends is its `;`.
proof fn lemma_call_ends_with_semicolon(toks: Seq<Token>, p: int)
    requires
        valid_pos(toks, p),
    ensures
        spec_call(toks, p) matches Step::Matched(c, e) ==> p < e <= toks.len() && toks[e - 1].text@ == ";"@,
{
    lemma_call_texts(toks, p);
    lemma_call_advances(toks, p);
    if let Step::Matched(c, e) = spec_call(toks, p) {
        let t = texts_between(toks, p, e);
        assert(t[t.len() - 1] == toks[e - 1].text@);
        assert(call_texts(c)[call_texts(c).len() - 1] == ";"@);
    }
}

proof fn lemma_calls_texts(toks: Seq<Token>, q: int, acc: Seq<CallAst>)
    requires
        valid_pos(toks, q),
    ensures
        spec_calls(toks, q, acc) matches Step::Matched(cs, r) ==> {
            &&& q <= r <= toks.len()
            &&& cs.len() >= acc.len()
            &&& cs.take(acc.len() as int) == acc
            &&& texts_between(toks, q, r) == calls_texts(cs.skip(acc.len() as int))
            &&& (r > q ==> toks[r - 1].text@ == ";"@)
        },
    decreases toks.len() - q,
{
    lemma_call_texts(toks, q);
    lemma_call_ends_with_semicolon(toks, q);
    match spec_call(toks, q) {
        Step::NoMatch => {
            assert(texts_between(toks, q, q) =~= Seq::<Seq<char>>::empty());
            assert(acc.take(acc.len() as int) =~= acc);
            assert(acc.skip(acc.len() as int) =~= Seq::<CallAst>::empty());
        },
        Step::Matched(c, q2) => {
            if q < q2 <= toks.len() {
                let acc2 = acc.push(c);
                lemma_calls_texts(toks, q2, acc2);
                if let Step::Matched(cs, r) = spec_calls(toks, q2, acc2) {
                    lemma_texts_split(toks, q, q2, r);
                    assert(cs.take(acc.len() as int) =~= acc) by {
                        assert(cs.take(acc2.len() as int).take(acc.len() as int) =~= cs.take(acc.len() as int));
                        assert(acc2.take(acc.len() as int) =~= acc);
                    }
                    let xs = cs.skip(acc.len() as int);
                    assert(cs.take(acc2.len() as int)[acc.len() as int] == c);
                    assert(xs[0] == c);
                    assert(xs.drop_first() =~= cs.skip(acc2.len() as int));
                }
            }
        },
        _ => {},
    }
}

/// What a recognised body takes is the grammar's body: the tokens it moves
/// past are `{`, the tokens of its calls one after another, and `}`; every
/// call moved past is in the body, in order.
pub proof fn lemma_body_texts(toks: Seq<Token>, p: int)
    requires
        valid_pos(toks, p),
    ensures
        spec_body(toks, p) matches Step::Matched(cs, r) ==> {
            &&& p < r <= toks.len()
            &&& texts_between(toks, p, r) == seq!["{"@] + calls_texts(cs) + seq!["}"@]
        },
{
    let len = toks.len() as int;
    if let Step::Matched(cs, r) = spec_body(toks, p) {
        let p1 = advance(len, p);
        lemma_calls_texts(toks, p1, Seq::empty());
        lemma_open_close_differ();
        lemma_semicolon_close_brace_differ();
        if let Step::Matched(cs2, q) = spec_calls(toks, p1, Seq::empty()) {
            assert(cs2 == cs);
            assert(cs.skip(0) =~= cs);
            assert(p < len) by {
                if p == len {
                    assert(q == p1);
                }
            }
            assert(q < len) by {
                if q == len {
                    if q == p1 {
                        assert(toks[q - 1].text@ == "{"@);
                    } else {
                        assert(toks[q - 1].text@ == ";"@);
                    }
                }
            }
            lemma_texts_split(toks, p, p1, q);
            lemma_texts_split(toks, p, q, r);
            assert(texts_between(toks, p, p1) =~= seq!["{"@]);
            assert(texts_between(toks, q, r) =~= seq!["}"@]);
        }
    }
}

/// What a recognised declaration takes is the grammar's declaration: `fn`
/// (a keyword), its name (an identifier), `(`, `)`, then its body.
pub proof fn lemma_decl_texts(toks: Seq<Token>, p: int)
    requires
        valid_pos(toks, p),
    ensures
        spec_decl(toks, p) matches Step::Matched(a, r) ==> {
            &&& p < r <= toks.len()
            &&& texts_between(toks, p, r) == stmt_texts(a)
            &&& toks[p].kind == TokenType::Keyword
            &&& toks[p + 1].kind == TokenType::Identifier
            &&& a matches StmtAst::Decl { name, body } && name == toks[p + 1].text@
        },
{
    let len = toks.len() as int;
    if let Step::Matched(a, r) = spec_decl(toks, p) {
        let p1 = advance(len, p);
        let p2 = advance(len, p1);
        let p3 = advance(len, p2);
        let p4 = advance(len, p3);
        lemma_open_close_differ();
        assert(p1 == p + 1 && p2 == p + 2 && p3 == p + 3 && p4 == p + 4) by {
            if p == len {
                assert(p1 == p2);
            } else if p1 == len {
                assert(p1 == p2);
            } else if p2 == len {
                assert(p3 == p4);
            } else if p3 == len {
                assert(p3 == p4);
            }
        }
        lemma_body_texts(toks, p4);
        lemma_texts_split(toks, p, p4, r);
        assert(texts_between(toks, p, p4) =~= seq![toks[p].text@, toks[p + 1].text@, "("@, ")"@]);
        assert(seq!["fn"@, text_at(toks, p2), "("@, ")"@, "{"@] =~= seq!["fn"@, text_at(toks, p2), "("@, ")"@] + seq!["{"@]);
    }
}

/// Whatever body follows `fn`, a name, `(` and `)`, an empty one too, makes
/// a declaration with that name and body, which ends where the body does.
pub proof fn lemma_decl_of_body(toks: Seq<Token>, p: int)
    requires
        0 <= p,
        p + 4 <= toks.len(),
        toks[p].kind == TokenType::Keyword,
        toks[p].text@ == "fn"@,
        toks[p + 1].kind == TokenType::Identifier,
        toks[p + 2].text@ == "("@,
        toks[p + 3].text@ == ")"@,
    ensures
        spec_body(toks, p + 4) matches Step::Matched(cs, r) ==> spec_decl(toks, p) == Step::Matched(
            StmtAst::Decl { name: toks[p + 1].text@, body: cs },
            r,
        ),
{
}

proof fn lemma_prog_texts_acc(toks: Seq<Token>, p: int, acc: Seq<StmtAst>)
    requires
        valid_pos(toks, p),
    ensures
        spec_prog(toks, p, acc) matches Step::Matched(asts, r) ==> {
            &&& p <= r <= toks.len()
            &&& asts.len() >= acc.len()
            &&& asts.take(acc.len() as int) == acc
            &&& texts_between(toks, p, r) == stmts_texts(asts.skip(acc.len() as int))
        },
    decreases toks.len() - p,
{
    lemma_decl_texts(toks, p);
    lemma_call_texts(toks, p);
    let (a, q) = match spec_decl(toks, p) {
        Step::Matched(d, q) => (d, q),
        _ => match spec_call(toks, p) {
            Step::Matched(c, q) => (StmtAst::Call { call: c }, q),
            _ => (StmtAst::Call { call: CallAst { name: Seq::empty(), params: Seq::empty() } }, p),
        },
    };
    let first = (spec_decl(toks, p) is Matched) || (spec_decl(toks, p) is NoMatch && spec_call(toks, p) is Matched);
    if first && p < q <= toks.len() {
        let acc2 = acc.push(a);
        lemma_prog_texts_acc(toks, q, acc2);
        if let Step::Matched(asts, r) = spec_prog(toks, q, acc2) {
            lemma_texts_split(toks, p, q, r);
            assert(asts.take(acc.len() as int) =~= acc) by {
                assert(asts.take(acc2.len() as int).take(acc.len() as int) =~= asts.take(acc.len() as int));
                assert(acc2.take(acc.len() as int) =~= acc);
            }
            let xs = asts.skip(acc.len() as int);
            assert(asts.take(acc2.len() as int)[acc.len() as int] == a);
            assert(xs[0] == a);
            assert(xs.drop_first() =~= asts.skip(acc2.len() as int));
            assert(texts_between(toks, p, q) == stmt_texts(a));
        }
    } else if let Step::Matched(asts, r) = spec_prog(toks, p, acc) {
        assert(texts_between(toks, p, p) =~= Seq::<Seq<char>>::empty());
        assert(acc.take(acc.len() as int) =~= acc);
        assert(acc.skip(acc.len() as int) =~= Seq::<StmtAst>::empty());
    }
}

/// What a parsed program takes is the grammar's program: the tokens it moves
/// past are those of its statements, one after another, with none left out
/// or taken twice; each statement begins where the one before ended.
pub proof fn lemma_prog_texts(toks: Seq<Token>, p: int)
    requires
        valid_pos(toks, p),
    ensures
        spec_prog(toks, p, Seq::empty()) matches Step::Matched(asts, r) ==> {
            &&& p <= r <= toks.len()
            &&& texts_between(toks, p, r) == stmts_texts(asts)
        },
{
    lemma_prog_texts_acc(toks, p, Seq::empty());
    if let Step::Matched(asts, r) = spec_prog(toks, p, Seq::empty()) {
        assert(asts.skip(0) =~= asts);
    }
}

/// A recognised declaration lies after its start and within the stream.
pub proof fn lemma_decl_advances(toks: Seq<Token>, p: int)
    requires
        valid_pos(toks, p),
    ensures
        spec_decl(toks, p) matches Step::Matched(_, q) ==> p < q <= toks.len(),
{
    let len = toks.len() as int;
    let p4 = advance(len, advance(len, advance(len, advance(len, p))));
    lemma_body_bounds(toks, p4);
}


/// What the call parser owes for the outcome `st` from position `p0`: its
/// result `r` and the position `p1` it ends at.
pub open spec fn call_result(
    st: Step<CallAst>,
    r: Result<Option<Statement>, ParseError>,
    p0: int,
    p1: int,
) -> bool {
    match st {
        Step::NoMatch => r == Ok::<Option<Statement>, ParseError>(None) && p1 == p0,
        Step::Matched(c, q) => r matches Ok(Some(s)) && is_call(s, c) && p1 == q,
        Step::Stuck(e) => r == Err::<Option<Statement>, ParseError>(e),
    }
}

pub open spec fn body_result(
    st: Step<Seq<CallAst>>,
    r: Result<Option<Statement>, ParseError>,
    p0: int,
    p1: int,
) -> bool {
    match st {
        Step::NoMatch => r == Ok::<Option<Statement>, ParseError>(None) && p1 == p0,
        Step::Matched(cs, q) => r matches Ok(Some(s)) && is_body(s, cs) && p1 == q,
        Step::Stuck(e) => r == Err::<Option<Statement>, ParseError>(e),
    }
}

pub open spec fn decl_result(
    st: Step<StmtAst>,
    r: Result<Option<Statement>, ParseError>,
    p0: int,
    p1: int,
) -> bool {
    match st {
        Step::NoMatch => r == Ok::<Option<Statement>, ParseError>(None) && p1 == p0,
        Step::Matched(d, q) => r matches Ok(Some(s)) && is_stmt(s, d) && p1 == q,
        Step::Stuck(e) => r == Err::<Option<Statement>, ParseError>(e),
    }
}

/// A parsed program: its statements in source order.
pub struct Prog {
    stmts: Vec<Statement>,
}

impl Prog {
    pub closed spec fn spec_stmts(&self) -> Seq<Statement> {
        self.stmts@
    }

    /// `self` holds the statements that stand for `asts`, in order.
    pub open spec fn is_prog(&self, asts: Seq<StmtAst>) -> bool {
        &&& self.spec_stmts().len() == asts.len()
        &&& forall|i: int| 0 <= i < asts.len() ==> is_stmt(#[trigger] self.spec_stmts()[i], asts[i])
    }

    fn new(stmts: Vec<Statement>) -> (p: Self)
        ensures
            p.spec_stmts() == stmts@,
    {
        Self { stmts }
    }

    pub fn stmts(&self) -> (s: &Vec<Statement>)
        ensures
            s@ == self.spec_stmts(),
    {
        &self.stmts
    }
}

/// The parser: the abstract syntax and the recursive-descent parse functions.
pub struct Parser {
    tokenizer: Tokenizer,
}

impl Parser {
    pub closed spec fn tokens(&self) -> Seq<Token> {
        self.tokenizer.tokens()
    }

    pub closed spec fn pos(&self) -> int {
        self.tokenizer.pos()
    }

    pub open spec fn ready(&self) -> bool {
        valid_pos(self.tokens(), self.pos())
    }

    pub fn new(tokenizer: Tokenizer) -> (p: Self)
        ensures
            p.tokens() == tokenizer.tokens(),
            p.pos() == tokenizer.pos(),
    {
        Self { tokenizer }
    }

    fn next(&mut self) -> (t: &Token)
        requires
            old(self).ready(),
        ensures
            final(self).tokens() == old(self).tokens(),
            final(self).pos() == advance(old(self).tokens().len() as int, old(self).pos()),
            *t == final(self).tokens()[final(self).pos() - 1],
    {
        self.tokenizer.next()
    }

    fn token(&self, offset: usize) -> (t: &Token)
        requires
            self.tokens().len() > 0,
            self.pos() + offset <= usize::MAX,
        ensures
            *t == self.tokens()[if self.pos() + offset < self.tokens().len() {
                self.pos() + offset
            } else {
                self.tokens().len() - 1
            }],
    {
        self.tokenizer.token(offset)
    }

    fn position(&self) -> (p: usize)
        ensures
            p == self.pos(),
    {
        self.tokenizer.position()
    }

    fn trace_back(&mut self, new_pos: usize)
        ensures
            final(self).tokens() == old(self).tokens(),
            final(self).pos() == new_pos,
    {
        self.tokenizer.set_position(new_pos);
    }

    fn forwards(&mut self, offset: usize)
        requires
            old(self).pos() + offset <= usize::MAX,
        ensures
            final(self).tokens() == old(self).tokens(),
            final(self).pos() == old(self).pos() + offset,
    {
        self.tokenizer.forwards(offset);
    }

    fn at_end(&self) -> (b: bool)
        ensures
            b == (self.pos() >= self.tokens().len()),
    {
        self.tokenizer.pos >= self.tokenizer.tokens.len()
    }

    /// `fnCall`, reporting a malformed stream as an error.
    #[verifier::loop_isolation(false)]
    fn call_step(&mut self) -> (r: Result<Option<Statement>, ParseError>)
        requires
            old(self).ready(),
        ensures
            final(self).tokens() == old(self).tokens(),
            final(self).ready(),
            call_result(spec_call(old(self).tokens(), old(self).pos()), r, old(self).pos(), final(self).pos()),
    {
        let ghost toks = self.tokens();
        let ghost p0 = self.pos();
        let ghost len = toks.len() as int;
        let old_pos = self.position();
        let t = *self.next();
        if t.kind == TokenType::Identifier {
            let fn_name = t.text;
            let t1 = *self.next();
            if str_eq(t1.text, "(") {
                let mut params: Vec<&'static str> = Vec::new();
                let t2_init = *self.next();
                let mut t2 = t2_init;
                let ghost total = spec_params(toks, self.pos(), Seq::empty());
                proof {
                    assert(texts(params@) =~= Seq::<Seq<char>>::empty());
                }
                while !str_eq(t2.text, ")")
                    invariant
                        self.tokens() == toks,
                        len == toks.len(),
                        self.ready(),
                        self.pos() >= 1,
                        t2 == toks[self.pos() - 1],
                        spec_params(toks, self.pos(), texts(params@)) == total,
                    decreases len - self.pos(),
                {
                    if t2.kind != TokenType::StringLiteral {
                        return Err(ParseError::MissingParameter(t2.text));
                    }
                    if self.at_end() {
                        if str_eq(t2.text, ",") {
                            return Err(ParseError::Unterminated);
                        } else {
                            return Err(ParseError::MissingComma(t2.text));
                        }
                    }
                    let ghost acc = texts(params@);
                    params.push(t2.text);
                    proof {
                        assert(texts(params@) =~= acc.push(t2.text@));
                    }
                    t2 = *self.next();
                    if !str_eq(t2.text, ")") {
                        if str_eq(t2.text, ",") {
                            t2 = *self.next();
                            if str_eq(t2.text, ")") {
                                return Err(ParseError::MissingParameter(t2.text));
                            }
                        } else {
                            return Err(ParseError::MissingComma(t2.text));
                        }
                    }
                }
                let t3 = *self.next();
                if str_eq(t3.text, ";") {
                    return Ok(Some(Statement::fn_call(fn_name, params)));
                } else {
                    return Err(ParseError::MissingSemicolon(t3.text));
                }
            }
        }
        self.trace_back(old_pos);
        Ok(None)
    }

    /// `fnBody`, reporting a malformed stream as an error.
    #[verifier::loop_isolation(false)]
    fn body_step(&mut self) -> (r: Result<Option<Statement>, ParseError>)
        requires
            old(self).ready(),
        ensures
            final(self).tokens() == old(self).tokens(),
            final(self).ready(),
            body_result(spec_body(old(self).tokens(), old(self).pos()), r, old(self).pos(), final(self).pos()),
    {
        let ghost toks = self.tokens();
        let ghost len = toks.len() as int;
        let old_pos = self.position();
        let t = *self.next();
        if str_eq(t.text, "{") {
            let mut stmts: Vec<Statement> = Vec::new();
            let ghost mut calls: Seq<CallAst> = Seq::empty();
            let ghost total = spec_calls(toks, self.pos(), Seq::empty());
            loop
                invariant
                    self.tokens() == toks,
                    self.ready(),
                    spec_calls(toks, self.pos(), calls) == total,
                    stmts@.len() == calls.len(),
                    forall|i: int| 0 <= i < calls.len() ==> is_call(#[trigger] stmts@[i], calls[i]),
                decreases len - self.pos(),
            {
                let ghost before = self.pos();
                proof {
                    lemma_call_advances(toks, before);
                }
                match self.call_step() {
                    Err(e) => {
                        return Err(e);
                    },
                    Ok(None) => {
                        break;
                    },
                    Ok(Some(stmt)) => {
                        proof {
                            calls = calls.push(spec_call(toks, before)->Matched_0);
                        }
                        stmts.push(stmt);
                    },
                }
            }
            let t = *self.next();
            if str_eq(t.text, "}") {
                return Ok(Some(Statement::fn_body(stmts)));
            } else {
                return Err(ParseError::MissingCloseBrace(t.text));
            }
        }
        self.trace_back(old_pos);
        Ok(None)
    }

    /// `fnDecl`, reporting a malformed stream as an error.
    fn decl_step(&mut self) -> (r: Result<Option<Statement>, ParseError>)
        requires
            old(self).ready(),
        ensures
            final(self).tokens() == old(self).tokens(),
            final(self).ready(),
            decl_result(spec_decl(old(self).tokens(), old(self).pos()), r, old(self).pos(), final(self).pos()),
    {
        let old_pos = self.position();
        let t = *self.next();
        if t.kind == TokenType::Keyword && str_eq(t.text, "fn") {
            let t = *self.next();
            if t.kind == TokenType::Identifier {
                let fn_name = t.text;
                let t1 = *self.next();
                if str_eq(t1.text, "(") {
                    let t2 = *self.next();
                    if str_eq(t2.text, ")") {
                        match self.body_step() {
                            Err(e) => {
                                return Err(e);
                            },
                            Ok(Some(body)) => {
                                return Ok(Some(Statement::fn_decl(fn_name, body)));
                            },
                            Ok(None) => {},
                        }
                    } else {
                        return Err(ParseError::MissingCloseParen(t2.text));
                    }
                } else {
                    return Err(ParseError::MissingOpenParen(t1.text));
                }
            }
        }
        self.trace_back(old_pos);
        Ok(None)
    }

    /// `prog`: declarations and calls until neither is recognised. Reports a
    /// malformed stream, or a position at which no token can be read, as an
    /// error; parses as `parse_prog` does otherwise.
    #[verifier::loop_isolation(false)]
    pub fn try_parse_prog(&mut self) -> (r: Result<Prog, ParseError>)
        ensures
            final(self).tokens() == old(self).tokens(),
            !old(self).ready() ==> r == Err::<Prog, ParseError>(ParseError::NoToken),
            old(self).ready() ==> match spec_prog(old(self).tokens(), old(self).pos(), Seq::empty()) {
                Step::Matched(asts, q) => r matches Ok(prog) && prog.is_prog(asts) && final(self).pos() == q,
                Step::Stuck(e) => r == Err::<Prog, ParseError>(e),
                Step::NoMatch => false,
            },
    {
        if self.tokenizer.tokens.len() == 0 || self.tokenizer.pos > self.tokenizer.tokens.len() {
            return Err(ParseError::NoToken);
        }
        let ghost toks = self.tokens();
        let ghost len = toks.len() as int;
        let ghost total = spec_prog(toks, self.pos(), Seq::empty());
        let ghost mut asts: Seq<StmtAst> = Seq::empty();
        let mut stmts: Vec<Statement> = Vec::new();
        loop
            invariant
                self.tokens() == toks,
                self.ready(),
                spec_prog(toks, self.pos(), asts) == total,
                stmts@.len() == asts.len(),
                forall|i: int| 0 <= i < asts.len() ==> is_stmt(#[trigger] stmts@[i], asts[i]),
            decreases len - self.pos(),
        {
            let ghost before = self.pos();
            proof {
                lemma_decl_advances(toks, before);
                lemma_call_advances(toks, before);
            }
            match self.decl_step() {
                Err(e) => {
                    return Err(e);
                },
                Ok(Some(stmt)) => {
                    proof {
                        asts = asts.push(spec_decl(toks, before)->Matched_0);
                    }
                    stmts.push(stmt);
                    continue;
                },
                Ok(None) => {},
            }
            match self.call_step() {
                Err(e) => {
                    return Err(e);
                },
                Ok(Some(stmt)) => {
                    proof {
                        asts = asts.push(StmtAst::Call { call: spec_call(toks, before)->Matched_0 });
                    }
                    stmts.push(stmt);
                    continue;
                },
                Ok(None) => {},
            }
            break;
        }
        Ok(Prog::new(stmts))
    }

    /// Parses the whole program: declarations and calls until neither is
    /// recognised; the position is left after the last statement.
    ///
    /// A stream on which the grammar gets stuck (a malformed parameter list,
    /// a trailing comma after the last parameter among them, or a missing
    /// `;`, `)` or `}`) is ruled out by `requires`: `try_parse_prog` reports
    /// it as an error.
    pub fn parse_prog(&mut self) -> (prog: Prog)
        requires
            old(self).ready(),
            !(spec_prog(old(self).tokens(), old(self).pos(), Seq::empty()) is Stuck),
        ensures
            final(self).tokens() == old(self).tokens(),
            spec_prog(old(self).tokens(), old(self).pos(), Seq::empty()) matches Step::Matched(asts, q)
                && prog.is_prog(asts) && final(self).pos() == q,
    {
        match self.try_parse_prog() {
            Ok(prog) => prog,
            Err(_) => {
                proof {
                    assert(false);
                }
                Prog::new(Vec::new())
            },
        }
    }

    /// `fnBody : '{' fnCall* '}'`; when the next token is no `{` the position
    /// is restored and `None` returned.
    ///
    /// A stream on which the grammar gets stuck (a malformed parameter list,
    /// a trailing comma after the last parameter among them, or a missing
    /// `;`, `)` or `}`) is ruled out by `requires`: `try_parse_prog` reports
    /// it as an error.
    pub fn parse_fn_body(&mut self) -> (r: Option<Statement>)
        requires
            old(self).ready(),
            !(spec_body(old(self).tokens(), old(self).pos()) is Stuck),
        ensures
            final(self).tokens() == old(self).tokens(),
            final(self).ready(),
            body_result(spec_body(old(self).tokens(), old(self).pos()), Ok(r), old(self).pos(), final(self).pos()),
    {
        match self.body_step() {
            Ok(r) => r,
            Err(_) => {
                proof {
                    assert(false);
                }
                None
            },
        }
    }

    /// `fnDecl : "fn" Identifier '(' ')' fnBody`; when the tokens do not start
    /// a declaration the position is restored and `None` returned.
    ///
    /// A stream on which the grammar gets stuck (a malformed parameter list,
    /// a trailing comma after the last parameter among them, or a missing
    /// `;`, `)` or `}`) is ruled out by `requires`: `try_parse_prog` reports
    /// it as an error.
    pub fn parse_fn_decl(&mut self) -> (r: Option<Statement>)
        requires
            old(self).ready(),
            !(spec_decl(old(self).tokens(), old(self).pos()) is Stuck),
        ensures
            final(self).tokens() == old(self).tokens(),
            final(self).ready(),
            decl_result(spec_decl(old(self).tokens(), old(self).pos()), Ok(r), old(self).pos(), final(self).pos()),
    {
        match self.decl_step() {
            Ok(r) => r,
            Err(_) => {
                proof {
                    assert(false);
                }
                None
            },
        }
    }

    /// `fnCall : Identifier '(' paramList? ')' ';'`; when the tokens do not
    /// start a call the position is restored and `None` returned.
    ///
    /// A stream on which the grammar gets stuck (a malformed parameter list,
    /// a trailing comma after the last parameter among them, or a missing
    /// `;`, `)` or `}`) is ruled out by `requires`: `try_parse_prog` reports
    /// it as an error.
    pub fn parse_fn_call(&mut self) -> (r: Option<Statement>)
        requires
            old(self).ready(),
            !(spec_call(old(self).tokens(), old(self).pos()) is Stuck),
        ensures
            final(self).tokens() == old(self).tokens(),
            final(self).ready(),
            call_result(spec_call(old(self).tokens(), old(self).pos()), Ok(r), old(self).pos(), final(self).pos()),
    {
        match self.call_step() {
            Ok(r) => r,
            Err(_) => {
                proof {
                    assert(false);
                }
                None
            },
        }
    }
}

} // verus!
