//! The parser: from a token sequence to a syntax tree.
//!
//! The grammar is given as spec functions over token positions (`split_block`
//! and `read_*`). Host code (conditions and statements) is handed to `syn`,
//! whose answers are taken as they come: `assemble` says exactly how a block is
//! built from them, and the parsing functions state what holds whatever they
//! were.
use vstd::prelude::*;
use crate::ast::{BanishStmt, Context, HostCode, Rule, RuleView, State, StateView, StmtView, stmts_view};
use crate::host::{host_expr, host_stmts};
use crate::token::{Delim, Tok, render, render_text};

verus! {

#[derive(Debug, Clone, Copy, PartialEq, Eq, Structural)]
pub enum ParseError {
    /// A state must start with `@`; a program holds at least one state.
    ExpectedState,
    /// A state or rule name, or a transition's target, is missing.
    ExpectedName,
    /// A rule name must be followed by `?`.
    ExpectedQuestion,
    /// The input ended before a rule's `{` body.
    UnexpectedEnd,
    /// The tokens before a rule's body are not an expression.
    BadCondition,
    /// `!?` must be followed by a `{` block.
    ExpectedElseBlock,
    /// `=>` not followed by `@name;`.
    BadTransition,
    /// Host statements that do not parse.
    BadHostCode,
    /// `!?` on a rule without a condition.
    ElseWithoutCondition,
}

pub open spec fn is_punct(t: Tok, c: char) -> bool {
    t matches Tok::Punct(d, _) && d == c
}

/// `=>` starts at position `i`.
pub open spec fn is_arrow(w: Seq<Tok>, i: int) -> bool {
    &&& 0 <= i && i + 1 < w.len()
    &&& w[i] matches Tok::Punct(c, joint) && c == '=' && joint
    &&& is_punct(w[i + 1], '>')
}

/// The first position at or after `i` where `=>` starts, or the end.
pub open spec fn next_arrow(w: Seq<Tok>, i: int) -> int
    decreases w.len() - i,
{
    if i >= w.len() {
        w.len() as int
    } else if is_arrow(w, i) {
        i
    } else {
        next_arrow(w, i + 1)
    }
}

pub proof fn lemma_next_arrow(w: Seq<Tok>, i: int)
    requires
        0 <= i <= w.len(),
    ensures
        i <= next_arrow(w, i) <= w.len(),
        i < w.len() && !is_arrow(w, i) ==> i < next_arrow(w, i),
    decreases w.len() - i,
{
    if i < w.len() && !is_arrow(w, i) {
        lemma_next_arrow(w, i + 1);
    }
}

pub open spec fn cons<A>(x: A, r: Result<Seq<A>, ParseError>) -> Result<Seq<A>, ParseError> {
    match r {
        Ok(rest) => Ok(seq![x] + rest),
        Err(e) => Err(e),
    }
}

pub open spec fn after<A>(acc: Seq<A>, r: Result<Seq<A>, ParseError>) -> Result<
    Seq<A>,
    ParseError,
> {
    match r {
        Ok(rest) => Ok(acc + rest),
        Err(e) => Err(e),
    }
}

/// A piece of a block: a run of host tokens (positions `lo..hi` of the
/// block's contents), or a transition.
pub enum SegView {
    Host(int, int),
    Goto(Seq<char>),
}

pub enum Seg {
    Host(usize, usize),
    Goto(String),
}

impl View for Seg {
    type V = SegView;

    open spec fn view(&self) -> SegView {
        match self {
            Seg::Host(lo, hi) => SegView::Host(*lo as int, *hi as int),
            Seg::Goto(n) => SegView::Goto(n@),
        }
    }
}

pub open spec fn segs_view(v: Seq<Seg>) -> Seq<SegView> {
    v.map_values(|s: Seg| s@)
}

/// The pieces of a block, from position `i` of its contents on: a transition
/// `=> @name;`, or the longest run of host tokens before the next `=>`.
pub open spec fn split_block(w: Seq<Tok>, i: int) -> Result<Seq<SegView>, ParseError>
    decreases w.len() - i,
{
    if i < 0 || i >= w.len() {
        Ok(seq![])
    } else if is_arrow(w, i) {
        if i + 4 < w.len() && is_punct(w[i + 2], '@') && w[i + 3] is Ident && is_punct(
            w[i + 4],
            ';',
        ) {
            cons(SegView::Goto(w[i + 3]->Ident_0@), split_block(w, i + 5))
        } else {
            Err(ParseError::BadTransition)
        }
    } else {
        let j = next_arrow(w, i);
        if j <= i || j > w.len() {
            Err(ParseError::BadTransition)
        } else {
            cons(SegView::Host(i, j), split_block(w, j))
        }
    }
}

/// What the host parser said of one run of host tokens: `None` when it did
/// not parse, else each statement's text and whether it is a `return`.
pub type HostOutcome = Option<Seq<(Seq<char>, bool)>>;

pub open spec fn outcome_view(o: Option<Vec<(String, bool)>>) -> HostOutcome {
    match o {
        Some(v) => Some(v@.map_values(|p: (String, bool)| (p.0@, p.1))),
        None => None,
    }
}

pub open spec fn hosts(v: Seq<(Seq<char>, bool)>) -> Seq<StmtView> {
    v.map_values(|p: (Seq<char>, bool)| StmtView::Host(p.0, p.1))
}

/// The statements of a block from its pieces `k..`, given for each piece of
/// host tokens what the host parser said of it (`outs[k]` for piece `k`): one
/// statement per host statement, one per transition, in order.
pub open spec fn assemble(segs: Seq<SegView>, outs: Seq<HostOutcome>, k: int) -> Result<
    Seq<StmtView>,
    ParseError,
>
    decreases segs.len() - k,
{
    if k < 0 || k >= segs.len() {
        Ok(seq![])
    } else {
        match segs[k] {
            SegView::Goto(n) => cons(StmtView::Goto(n), assemble(segs, outs, k + 1)),
            SegView::Host(_, _) => if k < outs.len() && outs[k] is Some {
                after(hosts(outs[k]->Some_0), assemble(segs, outs, k + 1))
            } else {
                Err(ParseError::BadHostCode)
            },
        }
    }
}

/// `v` is the block built from `segs` for some answers of the host parser.
pub open spec fn block_fits(segs: Seq<SegView>, v: Seq<StmtView>) -> bool {
    exists|outs: Seq<HostOutcome>| assemble(segs, outs, 0) == Ok::<Seq<StmtView>, ParseError>(v)
}

pub open spec fn stmts_result(r: Result<Vec<BanishStmt>, ParseError>) -> Result<
    Seq<StmtView>,
    ParseError,
> {
    match r {
        Ok(v) => Ok(stmts_view(v@)),
        Err(e) => Err(e),
    }
}

/// Some piece of the block is a run of host tokens.
pub open spec fn has_host(segs: Seq<SegView>) -> bool {
    exists|q: int| 0 <= q < segs.len() && #[trigger] segs[q] is Host
}

/// What holds of a parsed block whatever the host parser answered: a
/// structural error is reported as it is; otherwise the block is built from its
/// pieces, or it holds host code and some of it did not parse. A block of
/// transitions alone therefore always parses.
pub open spec fn block_outcome(w: Seq<Tok>, r: Result<Seq<StmtView>, ParseError>) -> bool {
    match split_block(w, 0) {
        Err(e) => r == Err::<Seq<StmtView>, ParseError>(e),
        Ok(segs) => match r {
            Ok(v) => block_fits(segs, v),
            Err(e) => e == ParseError::BadHostCode && has_host(segs),
        },
    }
}

fn punct_at(w: &Vec<Tok>, i: usize, c: char) -> (r: bool)
    ensures
        r == (i < w.len() && is_punct(w@[i as int], c)),
{
    if i < w.len() {
        match &w[i] {
            Tok::Punct(d, _) => *d == c,
            _ => false,
        }
    } else {
        false
    }
}

fn arrow_at(w: &Vec<Tok>, i: usize) -> (r: bool)
    ensures
        r == is_arrow(w@, i as int),
{
    if i < w.len() && i < w.len() - 1 {
        match &w[i] {
            Tok::Punct(c, joint) => *c == '=' && *joint && punct_at(w, i + 1, '>'),
            _ => false,
        }
    } else {
        false
    }
}

fn ident_at(w: &Vec<Tok>, i: usize) -> (r: Option<String>)
    ensures
        match r {
            Some(s) => i < w.len() && w@[i as int] is Ident && s@ == w@[i as int]->Ident_0@,
            None => !(i < w@.len() && w@[i as int] is Ident),
        },
{
    if i < w.len() {
        match &w[i] {
            Tok::Ident(s) => Some(s.clone()),
            _ => None,
        }
    } else {
        None
    }
}

/// Splits the contents of a `{ }` block into runs of host tokens and
/// transitions.
pub fn split_rule_block(w: &Vec<Tok>) -> (r: Result<Vec<Seg>, ParseError>)
    ensures
        match r {
            Ok(v) => split_block(w@, 0) == Ok::<Seq<SegView>, ParseError>(segs_view(v@)),
            Err(e) => split_block(w@, 0) == Err::<Seq<SegView>, ParseError>(e),
        },
{
    let mut segs: Vec<Seg> = Vec::new();
    let mut i: usize = 0;
    while i < w.len()
        invariant
            i <= w@.len(),
            split_block(w@, 0) == after(segs_view(segs@), split_block(w@, i as int)),
        decreases w@.len() - i,
    {
        let ghost acc = segs_view(segs@);
        if arrow_at(w, i) {
            if w.len() - i > 4 && punct_at(w, i + 2, '@') && punct_at(w, i + 4, ';') {
                match ident_at(w, i + 3) {
                    Some(name) => {
                        let ghost x = SegView::Goto(name@);
                        segs.push(Seg::Goto(name));
                        proof {
                            assert(segs_view(segs@) =~= acc.push(x));
                            assert(acc.push(x) + split_block(w@, i + 5)->Ok_0 =~= acc + (seq![x]
                                + split_block(w@, i + 5)->Ok_0));
                        }
                        i = i + 5;
                    },
                    None => {
                        return Err(ParseError::BadTransition);
                    },
                }
            } else {
                return Err(ParseError::BadTransition);
            }
        } else {
            let mut j: usize = i + 1;
            proof {
                lemma_next_arrow(w@, i as int);
            }
            while j < w.len() && !arrow_at(w, j)
                invariant
                    i < j <= w@.len(),
                    next_arrow(w@, i as int) == next_arrow(w@, j as int),
                decreases w@.len() - j,
            {
                j = j + 1;
            }
            let ghost x = SegView::Host(i as int, j as int);
            segs.push(Seg::Host(i, j));
            proof {
                assert(segs_view(segs@) =~= acc.push(x));
                assert(acc.push(x) + split_block(w@, j as int)->Ok_0 =~= acc + (seq![x]
                    + split_block(w@, j as int)->Ok_0));
            }
            i = j;
        }
    }
    assert(segs_view(segs@) + seq![] =~= segs_view(segs@));
    Ok(segs)
}

/// Builds the statements of a block from its pieces and, for each run of host
/// tokens, what the host parser said of it (`outs[k]` for piece `k`).
pub fn assemble_block(segs: &Vec<Seg>, outs: &Vec<Option<Vec<(String, bool)>>>) -> (r: Result<
    Vec<BanishStmt>,
    ParseError,
>)
    ensures
        stmts_result(r) == assemble(
            segs_view(segs@),
            outs@.map_values(|o: Option<Vec<(String, bool)>>| outcome_view(o)),
            0,
        ),
{
    let ghost sv = segs_view(segs@);
    let ghost ov = outs@.map_values(|o: Option<Vec<(String, bool)>>| outcome_view(o));
    let mut body: Vec<BanishStmt> = Vec::new();
    let mut k: usize = 0;
    while k < segs.len()
        invariant
            k <= segs@.len(),
            sv == segs_view(segs@),
            ov == outs@.map_values(|o: Option<Vec<(String, bool)>>| outcome_view(o)),
            assemble(sv, ov, 0) == after(stmts_view(body@), assemble(sv, ov, k as int)),
        decreases segs@.len() - k,
    {
        let ghost acc = stmts_view(body@);
        let ghost rest = assemble(sv, ov, k + 1);
        match &segs[k] {
            Seg::Goto(name) => {
                let ghost x = StmtView::Goto(name@);
                body.push(BanishStmt::StateTransition(name.clone()));
                proof {
                    assert(stmts_view(body@) =~= acc.push(x));
                    if rest is Ok {
                        assert(acc.push(x) + rest->Ok_0 =~= acc + (seq![x] + rest->Ok_0));
                    }
                }
            },
            Seg::Host(_, _) => {
                if k >= outs.len() {
                    return Err(ParseError::BadHostCode);
                }
                match &outs[k] {
                    None => {
                        return Err(ParseError::BadHostCode);
                    },
                    Some(stmts) => {
                        let ghost hs = hosts(ov[k as int]->Some_0);
                        let mut m: usize = 0;
                        while m < stmts.len()
                            invariant
                                m <= stmts@.len(),
                                ov[k as int] == outcome_view(Some(*stmts)),
                                hs == hosts(ov[k as int]->Some_0),
                                stmts_view(body@) == acc + hs.take(m as int),
                            decreases stmts@.len() - m,
                        {
                            let ghost before = body@;
                            let text = stmts[m].0.clone();
                            let is_return = stmts[m].1;
                            let item = BanishStmt::Rust(HostCode { text, is_return });
                            let ghost item_view = item@;
                            body.push(item);
                            proof {
                                let o = ov[k as int]->Some_0;
                                assert(o[m as int] == (stmts@[m as int].0@, stmts@[m as int].1));
                                assert(hs[m as int] == item_view);
                                assert(stmts_view(body@) =~= stmts_view(before).push(hs[m as int]));
                                assert(hs.take(m + 1) =~= hs.take(m as int).push(hs[m as int]));
                                assert(stmts_view(body@) =~= acc + hs.take(m + 1));
                            }
                            m = m + 1;
                        }
                        proof {
                            assert(hs.take(m as int) =~= hs);
                            if rest is Ok {
                                assert(acc + hs + rest->Ok_0 =~= acc + (hs + rest->Ok_0));
                            }
                        }
                    },
                }
            },
        }
        k = k + 1;
    }
    assert(stmts_view(body@) + seq![] =~= stmts_view(body@));
    Ok(body)
}

/// Parses the contents of a `{ }` block into statements, one per host
/// statement and one per transition.
pub fn parse_rule_block(w: &Vec<Tok>) -> (r: Result<Vec<BanishStmt>, ParseError>)
    ensures
        block_outcome(w@, stmts_result(r)),
{
    let segs = split_rule_block(w)?;
    let mut outs: Vec<Option<Vec<(String, bool)>>> = Vec::new();
    let mut k: usize = 0;
    while k < segs.len()
        invariant
            k <= segs@.len(),
            outs@.len() == k,
            split_block(w@, 0) == Ok::<Seq<SegView>, ParseError>(segs_view(segs@)),
        decreases segs@.len() - k,
    {
        match &segs[k] {
            Seg::Host(lo, hi) => {
                proof {
                    lemma_split_bounds(w@, 0, k as int);
                }
                let text = render_text(w, *lo, *hi);
                outs.push(host_stmts(text.as_str()));
            },
            Seg::Goto(_) => {
                outs.push(None);
            },
        }
        k = k + 1;
    }
    let r = assemble_block(&segs, &outs);
    proof {
        let ov = outs@.map_values(|o: Option<Vec<(String, bool)>>| outcome_view(o));
        lemma_assemble_err(segs_view(segs@), ov, 0);
        if r is Ok {
            assert(assemble(segs_view(segs@), ov, 0) == Ok::<Seq<StmtView>, ParseError>(
                stmts_result(r)->Ok_0,
            ));
        }
    }
    r
}

/// The runs of host tokens lie within the block.
pub proof fn lemma_split_bounds(w: Seq<Tok>, i: int, q: int)
    requires
        0 <= i,
        split_block(w, i) is Ok,
        0 <= q < split_block(w, i)->Ok_0.len(),
    ensures
        split_block(w, i)->Ok_0[q] matches SegView::Host(lo, hi) ==> i <= lo <= hi <= w.len(),
    decreases w.len() - i,
{
    if i < w.len() {
        if is_arrow(w, i) {
            if q > 0 {
                lemma_split_bounds(w, i + 5, q - 1);
            }
        } else {
            let j = next_arrow(w, i);
            lemma_next_arrow(w, i);
            if q > 0 {
                lemma_split_bounds(w, j, q - 1);
            }
        }
    }
}

/// Assembling fails only because some host code did not parse.
pub proof fn lemma_assemble_err(segs: Seq<SegView>, outs: Seq<HostOutcome>, k: int)
    requires
        0 <= k,
    ensures
        assemble(segs, outs, k) is Err ==> assemble(segs, outs, k)->Err_0 == ParseError::BadHostCode
            && exists|q: int| k <= q < segs.len() && #[trigger] segs[q] is Host,
    decreases segs.len() - k,
{
    if k < segs.len() {
        lemma_assemble_err(segs, outs, k + 1);
        if segs[k] is Host {
            assert(segs[k] is Host);
        }
    }
}

/// A rule as the grammar reads it: its condition as text, its blocks as pieces.
pub struct RuleSyntax {
    pub name: Seq<char>,
    pub condition: Option<Seq<char>>,
    pub body: Seq<SegView>,
    pub else_body: Option<Seq<SegView>>,
}

pub struct StateSyntax {
    pub name: Seq<char>,
    pub rules: Seq<RuleSyntax>,
}

pub open spec fn is_brace(t: Tok) -> bool {
    t matches Tok::Group(d, _) && d is Brace
}

/// The first position at or after `i` holding a `{ }` group, or the end.
pub open spec fn next_brace(w: Seq<Tok>, i: int) -> int
    decreases w.len() - i,
{
    if i >= w.len() {
        w.len() as int
    } else if is_brace(w[i]) {
        i
    } else {
        next_brace(w, i + 1)
    }
}

/// A rule starting at position `i`: `name ? condition { body }`, then
/// optionally `!? { else }`. The condition is every token up to the first
/// `{ }` group. With the position after it.
pub open spec fn read_rule(w: Seq<Tok>, i: int) -> Result<(RuleSyntax, int), ParseError> {
    if !(0 <= i < w.len() && w[i] is Ident) {
        Err(ParseError::ExpectedName)
    } else if !(i + 1 < w.len() && is_punct(w[i + 1], '?')) {
        Err(ParseError::ExpectedQuestion)
    } else {
        let j = next_brace(w, i + 2);
        if j >= w.len() || j < i + 2 {
            Err(ParseError::UnexpectedEnd)
        } else {
            let cond = if j > i + 2 {
                Some(render(w.subrange(i + 2, j)))
            } else {
                None
            };
            let name = w[i]->Ident_0@;
            match split_block(w[j]->Group_1@, 0) {
                Err(e) => Err(e),
                Ok(body) => {
                    let k = j + 1;
                    if k < w.len() && is_punct(w[k], '!') {
                        if !(k + 2 < w.len() && is_punct(w[k + 1], '?') && is_brace(w[k + 2])) {
                            Err(ParseError::ExpectedElseBlock)
                        } else {
                            match split_block(w[k + 2]->Group_1@, 0) {
                                Err(e) => Err(e),
                                Ok(eb) => if cond is None {
                                    Err(ParseError::ElseWithoutCondition)
                                } else {
                                    Ok(
                                        (
                                            RuleSyntax {
                                                name,
                                                condition: cond,
                                                body,
                                                else_body: Some(eb),
                                            },
                                            k + 3,
                                        ),
                                    )
                                },
                            }
                        }
                    } else {
                        Ok((RuleSyntax { name, condition: cond, body, else_body: None }, k))
                    }
                },
            }
        }
    }
}

/// The rules of a state, from position `i` up to the next `@` or the end.
pub open spec fn read_rules(w: Seq<Tok>, i: int) -> Result<(Seq<RuleSyntax>, int), ParseError>
    decreases w.len() - i,
{
    if i < 0 || i >= w.len() || is_punct(w[i], '@') {
        Ok((seq![], i))
    } else {
        match read_rule(w, i) {
            Err(e) => Err(e),
            Ok((r, k)) => if k <= i || k > w.len() {
                Err(ParseError::ExpectedName)
            } else {
                match read_rules(w, k) {
                    Err(e) => Err(e),
                    Ok((rs, e)) => Ok((seq![r] + rs, e)),
                }
            },
        }
    }
}

/// A state starting at position `i`: `@ name` and its rules.
pub open spec fn read_state(w: Seq<Tok>, i: int) -> Result<(StateSyntax, int), ParseError> {
    if !(0 <= i < w.len() && is_punct(w[i], '@')) {
        Err(ParseError::ExpectedState)
    } else if !(i + 1 < w.len() && w[i + 1] is Ident) {
        Err(ParseError::ExpectedName)
    } else {
        match read_rules(w, i + 2) {
            Err(e) => Err(e),
            Ok((rs, k)) => Ok((StateSyntax { name: w[i + 1]->Ident_0@, rules: rs }, k)),
        }
    }
}

/// The states from position `i` to the end.
pub open spec fn read_states(w: Seq<Tok>, i: int) -> Result<Seq<StateSyntax>, ParseError>
    decreases w.len() - i,
{
    if i < 0 || i >= w.len() {
        Ok(seq![])
    } else {
        match read_state(w, i) {
            Err(e) => Err(e),
            Ok((s, k)) => if k <= i || k > w.len() {
                Err(ParseError::ExpectedState)
            } else {
                cons(s, read_states(w, k))
            },
        }
    }
}

/// A whole program: one or more states.
pub open spec fn read_program(w: Seq<Tok>) -> Result<Seq<StateSyntax>, ParseError> {
    if w.len() == 0 {
        Err(ParseError::ExpectedState)
    } else {
        read_states(w, 0)
    }
}

/// An error that comes from the host parser's answers rather than from the
/// structure of the program.
pub open spec fn host_error(e: ParseError) -> bool {
    e == ParseError::BadCondition || e == ParseError::BadHostCode
}

/// No block of the tokens holds a run of host tokens (or the block does not
/// split at all).
pub open spec fn block_free(w: Seq<Tok>) -> bool {
    split_block(w, 0) is Ok ==> !has_host(split_block(w, 0)->Ok_0)
}

/// The tokens hold no host code that the parser could hand to the host
/// parser: no rule has a condition (a `{ }` group follows every `name ?`), and
/// no top-level `{ }` group holds host statements.
pub open spec fn host_free(w: Seq<Tok>) -> bool {
    &&& forall|j: int|
        2 <= j < w.len() && w[j - 2] is Ident && is_punct(w[j - 1], '?') ==> is_brace(
            #[trigger] w[j],
        )
    &&& forall|j: int| 0 <= j < w.len() && is_brace(#[trigger] w[j]) ==> block_free(w[j]->Group_1@)
}

/// The parsed rule agrees with the grammar's reading: same name, condition
/// text and branches present, each block built from its pieces.
pub open spec fn rule_fits(s: RuleSyntax, r: RuleView) -> bool {
    &&& r.name == s.name
    &&& r.condition == s.condition
    &&& block_fits(s.body, r.body)
    &&& match (s.else_body, r.else_body) {
        (Some(a), Some(b)) => block_fits(a, b),
        (None, None) => true,
        _ => false,
    }
}

pub open spec fn rules_fit(s: Seq<RuleSyntax>, r: Seq<RuleView>) -> bool {
    &&& s.len() == r.len()
    &&& forall|k: int| 0 <= k < s.len() ==> rule_fits(#[trigger] s[k], r[k])
}

pub open spec fn state_fits(s: StateSyntax, v: StateView) -> bool {
    v.name == s.name && rules_fit(s.rules, v.rules)
}

pub open spec fn states_fit(s: Seq<StateSyntax>, v: Seq<StateView>) -> bool {
    &&& s.len() == v.len()
    &&& forall|k: int| 0 <= k < s.len() ==> state_fits(#[trigger] s[k], v[k])
}

/// What holds of a parse whatever the host parser answered: where the grammar
/// rejects the input, the parse fails with that error or a host error; where
/// it accepts it, the parse fails with a host error or agrees with it.
pub open spec fn outcome<S, V>(
    read: Result<S, ParseError>,
    r: Result<V, ParseError>,
    fits: spec_fn(S, V) -> bool,
) -> bool {
    match read {
        Err(e) => r is Err && (r->Err_0 == e || host_error(r->Err_0)),
        Ok(s) => match r {
            Ok(v) => fits(s, v),
            Err(e) => host_error(e),
        },
    }
}

fn brace_at(w: &Vec<Tok>, i: usize) -> (r: bool)
    ensures
        r == (i < w.len() && is_brace(w@[i as int])),
{
    if i < w.len() {
        match &w[i] {
            Tok::Group(Delim::Brace, _) => true,
            _ => false,
        }
    } else {
        false
    }
}

/// Parses the contents of the `{ }` group at position `j`.
fn parse_group_block(w: &Vec<Tok>, j: usize) -> (r: Result<Vec<BanishStmt>, ParseError>)
    requires
        j < w@.len(),
        is_brace(w@[j as int]),
    ensures
        block_outcome(w@[j as int]->Group_1@, stmts_result(r)),
{
    match &w[j] {
        Tok::Group(_, inner) => parse_rule_block(inner),
        _ => Err(ParseError::UnexpectedEnd),
    }
}

/// Scans a condition: the position of the first `{ }` group at or after `i`.
fn scan_condition(w: &Vec<Tok>, i: usize) -> (j: usize)
    requires
        i <= w@.len(),
    ensures
        i <= j <= w@.len(),
        j == next_brace(w@, i as int),
        j < w@.len() ==> is_brace(w@[j as int]),
{
    let mut j: usize = i;
    while j < w.len() && !brace_at(w, j)
        invariant
            i <= j <= w@.len(),
            next_brace(w@, i as int) == next_brace(w@, j as int),
        decreases w@.len() - j,
    {
        j = j + 1;
    }
    j
}

/// Parses the condition of a rule, if there is one: the tokens `lo..hi`, which
/// the host parser must accept as an expression.
fn parse_rule_condition(w: &Vec<Tok>, lo: usize, hi: usize) -> (r: Result<
    Option<String>,
    ParseError,
>)
    requires
        lo <= hi < w@.len(),
        is_brace(w@[hi as int]),
    ensures
        match r {
            Ok(None) => hi == lo,
            Ok(Some(c)) => hi > lo && c@ == render(w@.subrange(lo as int, hi as int)),
            Err(e) => hi > lo && e == ParseError::BadCondition,
        },
{
    if hi == lo {
        Ok(None)
    } else {
        let text = render_text(w, lo, hi);
        if host_expr(text.as_str()) {
            Ok(Some(text))
        } else {
            Err(ParseError::BadCondition)
        }
    }
}

/// Parses an optional `!? { ... }` at position `k`: the else-branch, if any,
/// and the position after it.
fn parse_rule_else_block(w: &Vec<Tok>, k: usize) -> (r: Result<
    (Option<Vec<BanishStmt>>, usize),
    ParseError,
>)
    requires
        k <= w@.len(),
    ensures
        ({
            let shaped = k + 2 < w@.len() && is_punct(w@[k + 1], '?') && is_brace(w@[k + 2]);
            match r {
                Ok((None, k2)) => k2 == k && !(k < w@.len() && is_punct(w@[k as int], '!')),
                Ok((Some(v), k2)) => k2 == k + 3 && k < w@.len() && is_punct(w@[k as int], '!')
                    && shaped && block_outcome(
                    w@[k + 2]->Group_1@,
                    Ok::<Seq<StmtView>, ParseError>(stmts_view(v@)),
                ),
                Err(e) => k < w@.len() && is_punct(w@[k as int], '!') && if shaped {
                    block_outcome(w@[k + 2]->Group_1@, Err::<Seq<StmtView>, ParseError>(e))
                } else {
                    e == ParseError::ExpectedElseBlock
                },
            }
        }),
{
    if !punct_at(w, k, '!') {
        return Ok((None, k));
    }
    if !punct_at(w, k + 1, '?') || !brace_at(w, k + 2) {
        return Err(ParseError::ExpectedElseBlock);
    }
    let eb = parse_group_block(w, k + 2)?;
    Ok((Some(eb), k + 3))
}

impl Rule {
    /// Parses the rule at position `i`, with the position after it.
    pub fn parse(w: &Vec<Tok>, i: usize) -> (r: Result<(Rule, usize), ParseError>)
        ensures
            outcome(
                read_rule(w@, i as int),
                match r {
                    Ok((rule, k)) => Ok((rule@, k as int)),
                    Err(e) => Err(e),
                },
                |s: (RuleSyntax, int), v: (RuleView, int)| s.1 == v.1 && rule_fits(s.0, v.0),
            ),
            r matches Ok((_, k)) ==> i < k <= w@.len(),
            host_free(w@) && r is Err ==> read_rule(w@, i as int) == Err::<(RuleSyntax, int), ParseError>(
                r->Err_0,
            ),
    {
        let name = match ident_at(w, i) {
            Some(n) => n,
            None => {
                return Err(ParseError::ExpectedName);
            },
        };
        if !punct_at(w, i + 1, '?') {
            return Err(ParseError::ExpectedQuestion);
        }
        let j = scan_condition(w, i + 2);
        if j >= w.len() {
            return Err(ParseError::UnexpectedEnd);
        }
        proof {
            if host_free(w@) && i + 2 < w@.len() {
                assert(is_brace(w@[i + 2]));
            }
        }
        let condition = parse_rule_condition(w, i + 2, j)?;
        proof {
            if host_free(w@) {
                assert(is_brace(w@[j as int]));
            }
        }
        let body = parse_group_block(w, j)?;
        proof {
            if host_free(w@) && j + 3 < w@.len() {
                assert(is_brace(w@[j + 3]) ==> block_free(w@[j + 3]->Group_1@));
            }
        }
        let (else_body, k) = parse_rule_else_block(w, j + 1)?;
        if condition.is_none() && else_body.is_some() {
            return Err(ParseError::ElseWithoutCondition);
        }
        let rule = Rule { name, condition, body, else_body };
        Ok((rule, k))
    }
}

pub open spec fn after_rules(acc: Seq<RuleSyntax>, r: Result<(Seq<RuleSyntax>, int), ParseError>) -> Result<
    (Seq<RuleSyntax>, int),
    ParseError,
> {
    match r {
        Ok((rs, e)) => Ok((acc + rs, e)),
        Err(e) => Err(e),
    }
}

impl State {
    /// Parses the state at position `i`, with the position after it.
    pub fn parse(w: &Vec<Tok>, i: usize) -> (r: Result<(State, usize), ParseError>)
        ensures
            outcome(
                read_state(w@, i as int),
                match r {
                    Ok((st, k)) => Ok((st@, k as int)),
                    Err(e) => Err(e),
                },
                |s: (StateSyntax, int), v: (StateView, int)| s.1 == v.1 && state_fits(s.0, v.0),
            ),
            r matches Ok((_, k)) ==> i < k <= w@.len(),
            host_free(w@) && r is Err ==> read_state(w@, i as int) == Err::<(StateSyntax, int), ParseError>(
                r->Err_0,
            ),
    {
        if !punct_at(w, i, '@') {
            return Err(ParseError::ExpectedState);
        }
        let name = match ident_at(w, i + 1) {
            Some(nm) => nm,
            None => {
                return Err(ParseError::ExpectedName);
            },
        };
        let mut rules: Vec<Rule> = Vec::new();
        let ghost mut acc: Seq<RuleSyntax> = seq![];
        let mut pos: usize = i + 2;
        while pos < w.len() && !punct_at(w, pos, '@')
            invariant
                i + 2 <= pos <= w@.len(),
                is_punct(w@[i as int], '@'),
                w@[i + 1] is Ident,
                name@ == w@[i + 1]->Ident_0@,
                read_rules(w@, i + 2) == after_rules(acc, read_rules(w@, pos as int)),
                rules_fit(acc, rules@.map_values(|r: Rule| r@)),
            decreases w@.len() - pos,
        {
            let (rule, k) = match Rule::parse(w, pos) {
                Ok(found) => found,
                Err(e) => {
                    return Err(e);
                },
            };
            let ghost x = read_rule(w@, pos as int)->Ok_0.0;
            let ghost old_rules = rules@.map_values(|r: Rule| r@);
            rules.push(rule);
            proof {
                let rest = read_rules(w@, k as int);
                if rest is Ok {
                    assert(acc.push(x) + rest->Ok_0.0 =~= acc + (seq![x] + rest->Ok_0.0));
                }
                assert(rules@.map_values(|r: Rule| r@) =~= old_rules.push(rule@));
                acc = acc.push(x);
            }
            pos = k;
        }
        assert(acc + seq![] =~= acc);
        Ok((State { name, rules }, pos))
    }
}

impl Context {
    /// Parses a whole program.
    pub fn parse(w: &Vec<Tok>) -> (r: Result<Context, ParseError>)
        ensures
            outcome(
                read_program(w@),
                match r {
                    Ok(c) => Ok(c@),
                    Err(e) => Err(e),
                },
                |s: Seq<StateSyntax>, v: Seq<StateView>| states_fit(s, v),
            ),
            host_free(w@) && r is Err ==> read_program(w@) == Err::<Seq<StateSyntax>, ParseError>(
                r->Err_0,
            ),
    {
        if w.len() == 0 {
            return Err(ParseError::ExpectedState);
        }
        let mut states: Vec<State> = Vec::new();
        let ghost mut acc: Seq<StateSyntax> = seq![];
        let mut pos: usize = 0;
        while pos < w.len()
            invariant
                pos <= w@.len(),
                w@.len() > 0,
                read_program(w@) == after(acc, read_states(w@, pos as int)),
                states_fit(acc, states@.map_values(|s: State| s@)),
            decreases w@.len() - pos,
        {
            let (st, k) = match State::parse(w, pos) {
                Ok(found) => found,
                Err(e) => {
                    return Err(e);
                },
            };
            let ghost x = read_state(w@, pos as int)->Ok_0.0;
            let ghost old_states = states@.map_values(|s: State| s@);
            states.push(st);
            proof {
                let rest = read_states(w@, k as int);
                if rest is Ok {
                    assert(acc.push(x) + rest->Ok_0 =~= acc + (seq![x] + rest->Ok_0));
                }
                assert(states@.map_values(|s: State| s@) =~= old_states.push(st@));
                acc = acc.push(x);
            }
            pos = k;
        }
        assert(acc + seq![] =~= acc);
        Ok(Context { states })
    }
}

/// A rule that parses with an else-branch also has a condition: `!?` on a
/// rule without one is rejected.
pub proof fn lemma_else_needs_condition(w: Seq<Tok>, i: int)
    ensures
        read_rule(w, i) is Ok && read_rule(w, i)->Ok_0.0.else_body is Some ==> read_rule(
            w,
            i,
        )->Ok_0.0.condition is Some,
{
}

} // verus!
