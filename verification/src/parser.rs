use vstd::prelude::*;

use crate::tokenizer::{Token, TokenKind, TokenKindModel, TokenModel, Tokenizer};
use crate::tokenizer::lemma_toks_shape;

verus! {

/// A binary arithmetic operator of the expression grammar.
#[derive(Debug, Clone, Copy, PartialEq, Eq, Structural)]
pub enum BiOper {
    Add,
    Sub,
    Mul,
    Div,
    Mod,
}

/// The operator a token stands for, over all operator tokens.
pub open spec fn spec_from_token_kind(k: TokenKindModel) -> Option<BiOper> {
    match k {
        TokenKindModel::Plus => Some(BiOper::Add),
        TokenKindModel::Minus => Some(BiOper::Sub),
        TokenKindModel::Star => Some(BiOper::Mul),
        TokenKindModel::Slash => Some(BiOper::Div),
        TokenKindModel::Percent => Some(BiOper::Mod),
        _ => None,
    }
}

/// The operator a token stands for, over the additive tokens alone.
pub open spec fn spec_add_sub(k: TokenKindModel) -> Option<BiOper> {
    match k {
        TokenKindModel::Plus => Some(BiOper::Add),
        TokenKindModel::Minus => Some(BiOper::Sub),
        _ => None,
    }
}

/// The operator a token stands for, over the multiplicative tokens alone.
pub open spec fn spec_mul_div_mod(k: TokenKindModel) -> Option<BiOper> {
    match k {
        TokenKindModel::Star => Some(BiOper::Mul),
        TokenKindModel::Slash => Some(BiOper::Div),
        TokenKindModel::Percent => Some(BiOper::Mod),
        _ => None,
    }
}

impl BiOper {
    /// Classify any operator token.
    pub fn from_token_kind(kind: &TokenKind) -> (r: Option<BiOper>)
        ensures
            r == spec_from_token_kind(kind@),
    {
        match kind {
            TokenKind::Plus => Some(BiOper::Add),
            TokenKind::Minus => Some(BiOper::Sub),
            TokenKind::Star => Some(BiOper::Mul),
            TokenKind::Slash => Some(BiOper::Div),
            TokenKind::Percent => Some(BiOper::Mod),
            _ => None,
        }
    }

    /// Classify an additive operator token.
    pub fn add_sub(kind: &TokenKind) -> (r: Option<BiOper>)
        ensures
            r == spec_add_sub(kind@),
    {
        match kind {
            TokenKind::Plus => Some(BiOper::Add),
            TokenKind::Minus => Some(BiOper::Sub),
            _ => None,
        }
    }

    /// Classify a multiplicative operator token.
    pub fn mul_div_mod(kind: &TokenKind) -> (r: Option<BiOper>)
        ensures
            r == spec_mul_div_mod(kind@),
    {
        match kind {
            TokenKind::Star => Some(BiOper::Mul),
            TokenKind::Slash => Some(BiOper::Div),
            TokenKind::Percent => Some(BiOper::Mod),
            _ => None,
        }
    }
}

/// The mathematical model of an expression tree.
pub ghost enum ExprModel {
    IntLiteral(i32),
    BiOper(BiOper, Box<(ExprModel, ExprModel)>),
    Var(Seq<char>),
    Let(Seq<char>, Box<(ExprModel, ExprModel)>),
}

/// One node of the expression tree: an integer literal, a binary operation,
/// a variable reference by name, or a let-binding whose name is visible in
/// its body. The tree is strictly owned top-down.
#[derive(Debug)]
pub enum Expr {
    IntLiteral(i32),
    BiOper(BiOper, Box<(Expr, Expr)>),
    Var(String),
    Let(String, Box<(Expr, Expr)>),
}

impl View for Expr {
    type V = ExprModel;

    open spec fn view(&self) -> ExprModel
        decreases self,
    {
        match self {
            Expr::IntLiteral(i) => ExprModel::IntLiteral(*i),
            Expr::BiOper(op, b) => ExprModel::BiOper(*op, Box::new((b.0@, b.1@))),
            Expr::Var(n) => ExprModel::Var(n@),
            Expr::Let(n, b) => ExprModel::Let(n@, Box::new((b.0@, b.1@))),
        }
    }
}

/// The mathematical model of a parse failure.
pub ghost struct ErrorModel {
    pub expected: Seq<char>,
    pub actual: TokenModel,
}

/// A parse failure: the pattern that was required, in words, and the token
/// actually found.
#[derive(Debug)]
pub enum Error {
    UnexpectedToken { expected: &'static str, actual: Token },
}

impl View for Error {
    type V = ErrorModel;

    open spec fn view(&self) -> ErrorModel {
        match self {
            Error::UnexpectedToken { expected, actual } => ErrorModel {
                expected: expected@,
                actual: actual@,
            },
        }
    }
}

/// The result of the specification parser: a tree and the remaining tokens,
/// a failure with its diagnostic, or exhausted fuel (which enough fuel rules
/// out).
pub ghost enum ParseOut {
    Parsed(ExprModel, Seq<TokenModel>),
    Failed(Seq<char>, TokenModel),
    Spent,
}

/// A well-formed token stream: nonempty, ending with the end-of-input token,
/// which occurs nowhere earlier.
pub open spec fn stream_wf(ts: Seq<TokenModel>) -> bool {
    &&& ts.len() >= 1
    &&& ts.last().kind is Eof
    &&& forall|i: int| 0 <= i < ts.len() - 1 ==> !(#[trigger] ts[i].kind is Eof)
}

/// The atom grammar: an integer literal, a variable reference, a
/// parenthesized expression, or a `let` binding.
pub open spec fn sp_atom(ts: Seq<TokenModel>, fuel: nat) -> ParseOut
    decreases fuel,
{
    if fuel == 0 || ts.len() == 0 {
        ParseOut::Spent
    } else {
        let t = ts[0];
        let rest = ts.skip(1);
        match t.kind {
            TokenKindModel::Int(i) => ParseOut::Parsed(ExprModel::IntLiteral(i), rest),
            TokenKindModel::Ident(n) => ParseOut::Parsed(ExprModel::Var(n), rest),
            TokenKindModel::LParen => match sp_expr(rest, (fuel - 1) as nat) {
                ParseOut::Parsed(e, r2) => if r2.len() == 0 {
                    ParseOut::Spent
                } else if r2[0].kind is RParen {
                    ParseOut::Parsed(e, r2.skip(1))
                } else {
                    ParseOut::Failed("a closing parenthesis"@, r2[0])
                },
                other => other,
            },
            TokenKindModel::Let => if rest.len() == 0 {
                ParseOut::Spent
            } else {
                match rest[0].kind {
                    TokenKindModel::Ident(n) => {
                        let r2 = rest.skip(1);
                        if r2.len() == 0 {
                            ParseOut::Spent
                        } else if !(r2[0].kind is Equal) {
                            ParseOut::Failed("an equals sign"@, r2[0])
                        } else {
                            match sp_expr(r2.skip(1), (fuel - 1) as nat) {
                                ParseOut::Parsed(e1, r3) => if r3.len() == 0 {
                                    ParseOut::Spent
                                } else if !(r3[0].kind is In) {
                                    ParseOut::Failed("the keyword in"@, r3[0])
                                } else {
                                    match sp_expr(r3.skip(1), (fuel - 1) as nat) {
                                        ParseOut::Parsed(e2, r4) => ParseOut::Parsed(
                                            ExprModel::Let(n, Box::new((e1, e2))),
                                            r4,
                                        ),
                                        other => other,
                                    }
                                },
                                other => other,
                            }
                        }
                    },
                    _ => ParseOut::Failed("a name to bind"@, rest[0]),
                }
            },
            _ => ParseOut::Failed("an expression"@, t),
        }
    }
}

/// The expression grammar: an atom followed by any number of additive
/// operator-atom pairs, folded left-associatively.
pub open spec fn sp_expr(ts: Seq<TokenModel>, fuel: nat) -> ParseOut
    decreases fuel,
{
    if fuel == 0 {
        ParseOut::Spent
    } else {
        match sp_atom(ts, (fuel - 1) as nat) {
            ParseOut::Parsed(left, rest) => sp_more(left, rest, (fuel - 1) as nat),
            other => other,
        }
    }
}

/// The additive tail: while the next token is `+` or `-`, consume it and the
/// following atom and fold into a left-associative binary node.
pub open spec fn sp_more(left: ExprModel, ts: Seq<TokenModel>, fuel: nat) -> ParseOut
    decreases fuel,
{
    if fuel == 0 {
        ParseOut::Spent
    } else if ts.len() > 0 && spec_add_sub(ts[0].kind) is Some {
        let op = spec_add_sub(ts[0].kind)->0;
        match sp_atom(ts.skip(1), (fuel - 1) as nat) {
            ParseOut::Parsed(right, r2) => sp_more(
                ExprModel::BiOper(op, Box::new((left, right))),
                r2,
                (fuel - 1) as nat,
            ),
            other => other,
        }
    } else {
        ParseOut::Parsed(left, ts)
    }
}

/// Fuel that always suffices for the atom grammar on `ts`.
pub open spec fn atom_fuel(ts: Seq<TokenModel>) -> nat {
    2 * ts.len() + 2
}

/// Fuel that always suffices for the expression grammar on `ts`.
pub open spec fn expr_fuel(ts: Seq<TokenModel>) -> nat {
    2 * ts.len() + 3
}

/// The atom parse of a token stream.
pub open spec fn sp_atom_at(ts: Seq<TokenModel>) -> ParseOut {
    sp_atom(ts, atom_fuel(ts))
}

/// The expression parse of a token stream.
pub open spec fn sp_expr_at(ts: Seq<TokenModel>) -> ParseOut {
    sp_expr(ts, expr_fuel(ts))
}

/// The additive-tail parse of a token stream with a given left operand.
pub open spec fn sp_more_at(left: ExprModel, ts: Seq<TokenModel>) -> ParseOut {
    sp_more(left, ts, atom_fuel(ts))
}

/// Dropping the head of a well-formed stream whose head is not the
/// end-of-input token leaves a well-formed stream.
pub proof fn lemma_stream_wf_skip(ts: Seq<TokenModel>)
    requires
        stream_wf(ts),
        !(ts[0].kind is Eof),
    ensures
        ts.len() >= 2,
        stream_wf(ts.skip(1)),
{
    assert(ts.len() >= 2) by {
        if ts.len() == 1 {
            assert(ts.last() == ts[0]);
        }
    }
    assert forall|i: int| 0 <= i < ts.skip(1).len() - 1 implies !(#[trigger] ts.skip(
        1,
    )[i].kind is Eof) by {
        assert(ts.skip(1)[i] == ts[i + 1]);
    }
    assert(ts.skip(1).last() == ts.last());
}

/// On a well-formed stream, with fuel at least the stated bound, the parse
/// result does not depend on the fuel, never runs out of it, and consumes at
/// least one token, leaving a well-formed remainder.
pub proof fn lemma_atom_fuel(ts: Seq<TokenModel>, f1: nat, f2: nat)
    requires
        stream_wf(ts),
        f1 >= atom_fuel(ts),
        f2 >= atom_fuel(ts),
    ensures
        sp_atom(ts, f1) == sp_atom(ts, f2),
        !(sp_atom(ts, f1) is Spent),
        (match sp_atom(ts, f1) {
            ParseOut::Parsed(_, rest) => rest.len() < ts.len() && stream_wf(rest),
            _ => true,
        }),
    decreases f1,
{
    let t = ts[0];
    let rest = ts.skip(1);
    match t.kind {
        TokenKindModel::Int(_) => {
            lemma_stream_wf_skip(ts);
        },
        TokenKindModel::Ident(_) => {
            lemma_stream_wf_skip(ts);
        },
        TokenKindModel::LParen => {
            lemma_stream_wf_skip(ts);
            lemma_expr_fuel(rest, (f1 - 1) as nat, (f2 - 1) as nat);
            match sp_expr(rest, (f1 - 1) as nat) {
                ParseOut::Parsed(_, r2) => {
                    if r2[0].kind is RParen {
                        lemma_stream_wf_skip(r2);
                    }
                },
                _ => {},
            }
        },
        TokenKindModel::Let => {
            lemma_stream_wf_skip(ts);
            match rest[0].kind {
                TokenKindModel::Ident(_) => {
                    lemma_stream_wf_skip(rest);
                    let r2 = rest.skip(1);
                    if r2.len() > 0 && r2[0].kind is Equal {
                        lemma_stream_wf_skip(r2);
                        lemma_expr_fuel(r2.skip(1), (f1 - 1) as nat, (f2 - 1) as nat);
                        match sp_expr(r2.skip(1), (f1 - 1) as nat) {
                            ParseOut::Parsed(_, r3) => {
                                if r3.len() > 0 && r3[0].kind is In {
                                    lemma_stream_wf_skip(r3);
                                    lemma_expr_fuel(r3.skip(1), (f1 - 1) as nat, (f2 - 1) as nat);
                                }
                            },
                            _ => {},
                        }
                    }
                },
                _ => {},
            }
        },
        _ => {},
    }
}

/// Fuel-independence, fuel-sufficiency and progress for the expression
/// grammar.
pub proof fn lemma_expr_fuel(ts: Seq<TokenModel>, f1: nat, f2: nat)
    requires
        stream_wf(ts),
        f1 >= expr_fuel(ts),
        f2 >= expr_fuel(ts),
    ensures
        sp_expr(ts, f1) == sp_expr(ts, f2),
        !(sp_expr(ts, f1) is Spent),
        (match sp_expr(ts, f1) {
            ParseOut::Parsed(_, rest) => rest.len() < ts.len() && stream_wf(rest),
            _ => true,
        }),
    decreases f1,
{
    lemma_atom_fuel(ts, (f1 - 1) as nat, (f2 - 1) as nat);
    match sp_atom(ts, (f1 - 1) as nat) {
        ParseOut::Parsed(_, rest) => {
            lemma_more_fuel(sp_atom(ts, (f1 - 1) as nat)->Parsed_0, rest, (f1 - 1) as nat, (f2
                - 1) as nat);
        },
        _ => {},
    }
}

/// Fuel-independence, fuel-sufficiency and progress for the additive tail.
pub proof fn lemma_more_fuel(left: ExprModel, ts: Seq<TokenModel>, f1: nat, f2: nat)
    requires
        stream_wf(ts),
        f1 >= atom_fuel(ts),
        f2 >= atom_fuel(ts),
    ensures
        sp_more(left, ts, f1) == sp_more(left, ts, f2),
        !(sp_more(left, ts, f1) is Spent),
        (match sp_more(left, ts, f1) {
            ParseOut::Parsed(_, rest) => rest.len() <= ts.len() && stream_wf(rest),
            _ => true,
        }),
    decreases f1,
{
    if ts.len() > 0 && spec_add_sub(ts[0].kind) is Some {
        let op = spec_add_sub(ts[0].kind)->0;
        lemma_stream_wf_skip(ts);
        lemma_atom_fuel(ts.skip(1), (f1 - 1) as nat, (f2 - 1) as nat);
        match sp_atom(ts.skip(1), (f1 - 1) as nat) {
            ParseOut::Parsed(right, r2) => {
                lemma_more_fuel(
                    ExprModel::BiOper(op, Box::new((left, right))),
                    r2,
                    (f1 - 1) as nat,
                    (f2 - 1) as nat,
                );
            },
            _ => {},
        }
    }
}

/// Parse one atom from the tokenizer: an integer literal, a variable
/// reference, a parenthesized expression, or a `let`-binding. A required
/// token that does not match fails with the expected pattern and the actual
/// token, immediately.
#[verifier::loop_isolation(false)]
pub fn parse_atom(t: &mut Tokenizer) -> (r: Result<Expr, Error>)
    requires
        old(t).wf(),
    ensures
        final(t).wf(),
        (match sp_atom_at(old(t).toks()) {
            ParseOut::Parsed(e, rest) => (match r {
                Ok(expr) => expr@ == e && final(t).toks() == rest,
                Err(_) => false,
            }),
            ParseOut::Failed(exp, act) => (match r {
                Err(e) => e@.expected == exp && e@.actual == act,
                Ok(_) => false,
            }),
            ParseOut::Spent => false,
        }),
    decreases old(t).toks().len(), 0int,
{
    let ghost ts = old(t).toks();
    proof {
        lemma_toks_shape(t);
        lemma_atom_fuel(ts, atom_fuel(ts), atom_fuel(ts));
    }
    let token = t.pop();
    match token.kind {
        TokenKind::Int(i) => Ok(Expr::IntLiteral(i)),
        TokenKind::Ident(name) => Ok(Expr::Var(name)),
        TokenKind::LParen => {
            proof {
                lemma_stream_wf_skip(ts);
            }
            let e = parse_expr(t)?;
            let tok2 = t.pop();
            match tok2.kind {
                TokenKind::RParen => Ok(e),
                _ => Err(Error::UnexpectedToken { expected: "a closing parenthesis", actual: tok2 }),
            }
        },
        TokenKind::Let => {
            proof {
                lemma_stream_wf_skip(ts);
            }
            let tok_name = t.pop();
            let name = match tok_name.kind {
                TokenKind::Ident(n) => n,
                _ => {
                    return Err(
                        Error::UnexpectedToken { expected: "a name to bind", actual: tok_name },
                    );
                },
            };
            proof {
                lemma_stream_wf_skip(ts.skip(1));
            }
            let tok_eq = t.pop();
            match tok_eq.kind {
                TokenKind::Equal => {},
                _ => {
                    return Err(
                        Error::UnexpectedToken { expected: "an equals sign", actual: tok_eq },
                    );
                },
            }
            proof {
                lemma_stream_wf_skip(ts.skip(1).skip(1));
                lemma_expr_fuel(
                    ts.skip(1).skip(1).skip(1),
                    expr_fuel(ts.skip(1).skip(1).skip(1)),
                    (atom_fuel(ts) - 1) as nat,
                );
            }
            let e1 = parse_expr(t)?;
            let tok_in = t.pop();
            match tok_in.kind {
                TokenKind::In => {},
                _ => {
                    return Err(
                        Error::UnexpectedToken { expected: "the keyword in", actual: tok_in },
                    );
                },
            }
            proof {
                let r3 = sp_expr(ts.skip(1).skip(1).skip(1), (atom_fuel(ts) - 1) as nat)->Parsed_1;
                lemma_stream_wf_skip(r3);
                lemma_expr_fuel(
                    r3.skip(1),
                    expr_fuel(r3.skip(1)),
                    (atom_fuel(ts) - 1) as nat,
                );
            }
            let e2 = parse_expr(t)?;
            Ok(Expr::Let(name, Box::new((e1, e2))))
        },
        _ => Err(Error::UnexpectedToken { expected: "an expression", actual: token }),
    }
}

/// Parse one expression: an atom, then, while the next token is `+` or `-`,
/// the operator and the next atom, folded into a left-associative binary
/// node.
#[verifier::loop_isolation(false)]
pub fn parse_expr(t: &mut Tokenizer) -> (r: Result<Expr, Error>)
    requires
        old(t).wf(),
    ensures
        final(t).wf(),
        (match sp_expr_at(old(t).toks()) {
            ParseOut::Parsed(e, rest) => (match r {
                Ok(expr) => expr@ == e && final(t).toks() == rest,
                Err(_) => false,
            }),
            ParseOut::Failed(exp, act) => (match r {
                Err(e) => e@.expected == exp && e@.actual == act,
                Ok(_) => false,
            }),
            ParseOut::Spent => false,
        }),
    decreases old(t).toks().len(), 1int,
{
    let ghost ts = old(t).toks();
    proof {
        lemma_toks_shape(t);
        lemma_expr_fuel(ts, expr_fuel(ts), expr_fuel(ts));
        lemma_atom_fuel(ts, atom_fuel(ts), atom_fuel(ts));
    }
    let mut left = parse_atom(t)?;
    proof {
        let rest0 = sp_atom_at(ts)->Parsed_1;
        lemma_more_fuel(left@, rest0, (expr_fuel(ts) - 1) as nat, atom_fuel(rest0));
    }
    loop
        invariant
            t.wf(),
            stream_wf(t.toks()),
            t.toks().len() < ts.len(),
            sp_more_at(left@, t.toks()) == sp_expr_at(ts),
        decreases t.toks().len(),
    {
        let op = {
            let k = t.peek();
            BiOper::add_sub(&k.kind)
        };
        match op {
            None => {
                return Ok(left);
            },
            Some(op) => {
                let ghost cur = t.toks();
                proof {
                    lemma_stream_wf_skip(cur);
                    lemma_atom_fuel(cur.skip(1), (atom_fuel(cur) - 1) as nat, atom_fuel(cur.skip(1)));
                }
                t.pop();
                let right = parse_atom(t)?;
                proof {
                    let r2 = sp_atom_at(cur.skip(1))->Parsed_1;
                    lemma_more_fuel(
                        ExprModel::BiOper(op, Box::new((left@, right@))),
                        r2,
                        (atom_fuel(cur) - 1) as nat,
                        atom_fuel(r2),
                    );
                }
                left = Expr::BiOper(op, Box::new((left, right)));
            },
        }
    }
}

} // verus!
