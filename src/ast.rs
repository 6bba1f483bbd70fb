//! The syntax tree of a program, and its mathematical view.
use vstd::prelude::*;

verus! {

/// One host statement, kept as source text.
pub struct HostCode {
    pub text: String,
    /// Whether the statement is a `return` expression.
    pub is_return: bool,
}

pub enum BanishStmt {
    Rust(HostCode),
    /// `=> @name;`
    StateTransition(String),
}

pub struct Rule {
    pub name: String,
    /// The condition's source text; `None` for a rule that runs once per entry.
    pub condition: Option<String>,
    pub body: Vec<BanishStmt>,
    pub else_body: Option<Vec<BanishStmt>>,
}

pub struct State {
    pub name: String,
    pub rules: Vec<Rule>,
}

pub struct Context {
    pub states: Vec<State>,
}

pub enum StmtView {
    Host(Seq<char>, bool),
    Goto(Seq<char>),
}

pub struct RuleView {
    pub name: Seq<char>,
    pub condition: Option<Seq<char>>,
    pub body: Seq<StmtView>,
    pub else_body: Option<Seq<StmtView>>,
}

pub struct StateView {
    pub name: Seq<char>,
    pub rules: Seq<RuleView>,
}

impl View for BanishStmt {
    type V = StmtView;

    open spec fn view(&self) -> StmtView {
        match self {
            BanishStmt::Rust(h) => StmtView::Host(h.text@, h.is_return),
            BanishStmt::StateTransition(n) => StmtView::Goto(n@),
        }
    }
}

pub open spec fn stmts_view(v: Seq<BanishStmt>) -> Seq<StmtView> {
    v.map_values(|s: BanishStmt| s@)
}

impl View for Rule {
    type V = RuleView;

    open spec fn view(&self) -> RuleView {
        RuleView {
            name: self.name@,
            condition: match self.condition {
                Some(c) => Some(c@),
                None => None,
            },
            body: stmts_view(self.body@),
            else_body: match self.else_body {
                Some(e) => Some(stmts_view(e@)),
                None => None,
            },
        }
    }
}

impl View for State {
    type V = StateView;

    open spec fn view(&self) -> StateView {
        StateView { name: self.name@, rules: self.rules@.map_values(|r: Rule| r@) }
    }
}

impl View for Context {
    type V = Seq<StateView>;

    open spec fn view(&self) -> Seq<StateView> {
        self.states@.map_values(|s: State| s@)
    }
}

} // verus!
