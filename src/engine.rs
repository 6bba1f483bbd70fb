//! The run-time semantics: a dispatch loop over states, and inside each state
//! a loop over passes that stops at a fixed point.
//!
//! The machine never evaluates host code itself. Each step says what the host
//! must do next (evaluate a condition, run a branch), and the host answers
//! with a `Reply` on the following step.
use vstd::prelude::*;

verus! {

/// One rule as the run time needs it.
pub struct RuleShape {
    pub has_condition: bool,
    pub has_else: bool,
    /// The state named by the first transition of the body, if any.
    pub body_jump: Option<usize>,
    /// The state named by the first transition of the else-branch, if any.
    pub else_jump: Option<usize>,
}

/// A resolved program: for each state, in declaration order, its rules.
pub struct Program {
    pub states: Vec<Vec<RuleShape>>,
}

impl RuleShape {
    pub open spec fn wf(&self, n: nat) -> bool {
        &&& (self.body_jump matches Some(t) ==> t < n)
        &&& (self.else_jump matches Some(t) ==> t < n)
        &&& (self.has_else ==> self.has_condition)
        &&& (!self.has_else ==> self.else_jump is None)
    }
}

impl Program {
    pub open spec fn n_states(&self) -> nat {
        self.states.len() as nat
    }

    pub open spec fn n_rules(&self, s: int) -> nat {
        self.states@[s].len() as nat
    }

    pub open spec fn rule(&self, s: int, r: int) -> RuleShape {
        self.states@[s]@[r]
    }

    pub open spec fn wf(&self) -> bool {
        &&& self.n_states() > 0
        &&& forall|s: int, r: int|
            0 <= s < self.n_states() && 0 <= r < self.n_rules(s) ==> #[trigger] self.rule(s, r).wf(
                self.n_states(),
            )
    }
}

/// Where the machine stands between two steps.
#[derive(Debug, Clone, Copy, PartialEq, Eq, Structural)]
pub enum Phase {
    /// Walking the rules of the current pass.
    Scanning,
    /// Waiting for the value of the current rule's condition.
    AwaitCondition,
    /// Waiting for the host to finish one branch of the current rule.
    AwaitBody { else_branch: bool },
    /// Fell through past the last state; nothing more happens.
    Stopped,
}

/// What the host hands back to the machine.
#[derive(Debug, Clone, Copy, PartialEq, Eq, Structural)]
pub enum Reply {
    /// Nothing was asked: go on.
    Proceed,
    /// The value of the condition that was asked for.
    Condition(bool),
    /// The branch that was asked for ran to its end without returning.
    BodyDone,
}

/// What the machine asks of the host.
#[derive(Debug, Clone, Copy, PartialEq, Eq, Structural)]
pub enum Action {
    /// Nothing to do: step again with `Reply::Proceed`.
    Continue,
    /// Evaluate the condition of this rule and reply with its value.
    EvalCondition { state: usize, rule: usize },
    /// Run the host statements of this branch (those before its transition,
    /// if any), then reply with `Reply::BodyDone`, unless they returned.
    RunBody { state: usize, rule: usize, else_branch: bool },
    /// The last state fell through: the program has no exit here.
    FellOffEnd,
}

/// The explicit execution record of a running program.
pub struct Machine {
    /// Index of the state being run.
    pub current: usize,
    /// Index of the rule that the current pass stands at.
    pub rule: usize,
    /// Whether this is the first pass since the state was entered.
    pub first: bool,
    /// Whether some rule has interacted in the current pass.
    pub interacted: bool,
    pub phase: Phase,
}

impl Machine {
    /// The record right after entering state `s`.
    pub open spec fn entered(s: usize) -> Machine {
        Machine { current: s, rule: 0, first: true, interacted: false, phase: Phase::Scanning }
    }

    pub open spec fn wf(&self, p: Program) -> bool {
        &&& self.current < p.n_states()
        &&& self.rule <= p.n_rules(self.current as int)
        &&& (self.phase matches Phase::AwaitCondition ==> self.rule < p.n_rules(
            self.current as int,
        ) && p.rule(self.current as int, self.rule as int).has_condition)
        &&& (self.phase matches Phase::AwaitBody { else_branch } ==> self.rule < p.n_rules(
            self.current as int,
        ) && (else_branch ==> p.rule(self.current as int, self.rule as int).has_else))
    }

    /// The reply fits what the previous step asked for.
    pub open spec fn accepts(&self, reply: Reply) -> bool {
        match self.phase {
            Phase::Scanning => reply is Proceed,
            Phase::AwaitCondition => reply is Condition,
            Phase::AwaitBody { .. } => reply is BodyDone,
            Phase::Stopped => true,
        }
    }

    /// The record after the rule at the current position is done with, and
    /// the pass goes on with the next rule.
    pub open spec fn moved_on(self) -> Machine {
        Machine { rule: (self.rule + 1) as usize, phase: Phase::Scanning, ..self }
    }

    /// One step of the machine: its next record and what it asks of the host.
    pub open spec fn next(self, p: Program, reply: Reply) -> (Machine, Action) {
        let s = self.current;
        let r = self.rule;
        match self.phase {
            Phase::Stopped => (self, Action::FellOffEnd),
            Phase::AwaitCondition => {
                let holds = reply->Condition_0;
                if holds {
                    (
                        Machine {
                            interacted: true,
                            phase: Phase::AwaitBody { else_branch: false },
                            ..self
                        },
                        Action::RunBody { state: s, rule: r, else_branch: false },
                    )
                } else if p.rule(s as int, r as int).has_else {
                    (
                        Machine { phase: Phase::AwaitBody { else_branch: true }, ..self },
                        Action::RunBody { state: s, rule: r, else_branch: true },
                    )
                } else {
                    (self.moved_on(), Action::Continue)
                }
            },
            Phase::AwaitBody { else_branch } => {
                let rs = p.rule(s as int, r as int);
                let jump = if else_branch {
                    rs.else_jump
                } else {
                    rs.body_jump
                };
                match jump {
                    Some(t) => (Machine::entered(t), Action::Continue),
                    None => (self.moved_on(), Action::Continue),
                }
            },
            Phase::Scanning => {
                if r < p.n_rules(s as int) {
                    if p.rule(s as int, r as int).has_condition {
                        (
                            Machine { phase: Phase::AwaitCondition, ..self },
                            Action::EvalCondition { state: s, rule: r },
                        )
                    } else if self.first {
                        (
                            Machine {
                                interacted: true,
                                phase: Phase::AwaitBody { else_branch: false },
                                ..self
                            },
                            Action::RunBody { state: s, rule: r, else_branch: false },
                        )
                    } else {
                        (self.moved_on(), Action::Continue)
                    }
                } else if self.interacted {
                    (
                        Machine {
                            current: s,
                            rule: 0,
                            first: false,
                            interacted: false,
                            phase: Phase::Scanning,
                        },
                        Action::Continue,
                    )
                } else if s + 1 < p.n_states() {
                    (Machine::entered((s + 1) as usize), Action::Continue)
                } else {
                    (Machine { phase: Phase::Stopped, ..self }, Action::FellOffEnd)
                }
            },
        }
    }

    /// The record of a program that has just started: state 0, first pass.
    pub fn start() -> (m: Machine)
        ensures
            m == Machine::entered(0),
    {
        Machine { current: 0, rule: 0, first: true, interacted: false, phase: Phase::Scanning }
    }

    /// Takes one step, as `next` describes it.
    pub fn step(&mut self, p: &Program, reply: Reply) -> (a: Action)
        requires
            p.wf(),
            old(self).wf(*p),
            old(self).accepts(reply),
        ensures
            (*final(self), a) == old(self).next(*p, reply),
            final(self).wf(*p),
    {
        let s = self.current;
        let r = self.rule;
        let n = p.states[s].len();
        match self.phase {
            Phase::Stopped => Action::FellOffEnd,
            Phase::AwaitCondition => {
                let holds = match reply {
                    Reply::Condition(b) => b,
                    _ => false,
                };
                if holds {
                    self.interacted = true;
                    self.phase = Phase::AwaitBody { else_branch: false };
                    Action::RunBody { state: s, rule: r, else_branch: false }
                } else if p.states[s][r].has_else {
                    self.phase = Phase::AwaitBody { else_branch: true };
                    Action::RunBody { state: s, rule: r, else_branch: true }
                } else {
                    self.rule = r + 1;
                    self.phase = Phase::Scanning;
                    Action::Continue
                }
            },
            Phase::AwaitBody { else_branch } => {
                assert(p.rule(s as int, r as int).wf(p.n_states()));
                let jump = if else_branch {
                    p.states[s][r].else_jump
                } else {
                    p.states[s][r].body_jump
                };
                match jump {
                    Some(t) => {
                        *self = Machine {
                            current: t,
                            rule: 0,
                            first: true,
                            interacted: false,
                            phase: Phase::Scanning,
                        };
                    },
                    None => {
                        self.rule = r + 1;
                        self.phase = Phase::Scanning;
                    },
                }
                Action::Continue
            },
            Phase::Scanning => {
                if r < p.states[s].len() {
                    if p.states[s][r].has_condition {
                        self.phase = Phase::AwaitCondition;
                        Action::EvalCondition { state: s, rule: r }
                    } else if self.first {
                        self.interacted = true;
                        self.phase = Phase::AwaitBody { else_branch: false };
                        Action::RunBody { state: s, rule: r, else_branch: false }
                    } else {
                        self.rule = r + 1;
                        Action::Continue
                    }
                } else if self.interacted {
                    self.rule = 0;
                    self.first = false;
                    self.interacted = false;
                    Action::Continue
                } else if s < p.states.len() - 1 {
                    *self = Machine {
                        current: s + 1,
                        rule: 0,
                        first: true,
                        interacted: false,
                        phase: Phase::Scanning,
                    };
                    Action::Continue
                } else {
                    self.phase = Phase::Stopped;
                    Action::FellOffEnd
                }
            },
        }
    }
}

/// The else-branch of a rule runs on a pass exactly when the rule's condition
/// was just found false and the rule has an else-branch. Running it never marks
/// the pass as interacting, so it cannot by itself cause another pass.
pub proof fn lemma_else_branch(p: Program, m: Machine, reply: Reply)
    requires
        p.wf(),
        m.wf(p),
        m.accepts(reply),
    ensures
        ({
            let (m2, a) = m.next(p, reply);
            let here = p.rule(m.current as int, m.rule as int);
            &&& (a matches Action::RunBody { else_branch, .. } && else_branch ==> m.phase
                is AwaitCondition)
            &&& (m.phase is AwaitCondition ==> ((a matches Action::RunBody { else_branch, .. }
                && else_branch) <==> (reply == Reply::Condition(false) && here.has_else)))
            &&& (a matches Action::RunBody { else_branch, .. } && else_branch ==> m2.interacted
                == m.interacted)
            &&& (m.phase matches Phase::AwaitBody { else_branch } && else_branch ==> m2
                == Machine::entered(m2.current) || m2.interacted == m.interacted)
        }),
{
}

/// A state's fixed-point loop ends, and the machine falls through to the next
/// state, exactly when a whole pass has gone by with no rule interacting. A pass
/// with an interaction is followed by another pass of the same state. Apart
/// from that fall-through, the current state changes only by a transition at
/// the end of a branch. A pass counts as interacting once the body (not the
/// else-branch) of some rule has been handed out in it, and only then.
pub proof fn lemma_fixed_point(p: Program, m: Machine, reply: Reply)
    requires
        p.wf(),
        m.wf(p),
        m.accepts(reply),
    ensures
        ({
            let (m2, a) = m.next(p, reply);
            let pass_over = m.phase is Scanning && m.rule == p.n_rules(m.current as int);
            &&& (pass_over && !m.interacted && m.current + 1 < p.n_states() ==> m2
                == Machine::entered((m.current + 1) as usize))
            &&& (pass_over && !m.interacted && m.current + 1 == p.n_states() ==> a is FellOffEnd)
            &&& (pass_over && m.interacted ==> m2.current == m.current && m2.rule == 0
                && !m2.first && !m2.interacted && m2.phase is Scanning)
            &&& (m2.current != m.current ==> (pass_over && !m.interacted) || m.phase
                is AwaitBody)
            &&& (a matches Action::RunBody { else_branch, .. } && !else_branch ==> m2.interacted)
            &&& (m2.interacted && !m.interacted ==> (a matches Action::RunBody { else_branch, .. }
                && !else_branch))
        }),
{
}

/// The steps taken from `m` on the replies `rs`: each record reached, with
/// what was asked on the way to it.
pub open spec fn run(p: Program, m: Machine, rs: Seq<Reply>) -> Seq<(Machine, Action)>
    decreases rs.len(),
{
    if rs.len() == 0 {
        seq![]
    } else {
        let (m1, a) = m.next(p, rs[0]);
        seq![(m1, a)] + run(p, m1, rs.drop_first())
    }
}

/// Each reply fits what the step before it asked for.
pub open spec fn fits(p: Program, m: Machine, rs: Seq<Reply>) -> bool
    decreases rs.len(),
{
    rs.len() == 0 || (m.accepts(rs[0]) && fits(p, m.next(p, rs[0]).0, rs.drop_first()))
}

/// No step of the run enters a state (by transition or by falling through).
pub open spec fn no_entry(t: Seq<(Machine, Action)>) -> bool {
    forall|i: int| 0 <= i < t.len() ==> #[trigger] t[i].0 != Machine::entered(t[i].0.current)
}

/// How many steps of the run asked for `a`.
pub open spec fn count(t: Seq<(Machine, Action)>, a: Action) -> nat
    decreases t.len(),
{
    if t.len() == 0 {
        0
    } else {
        (if t[0].1 == a {
            1nat
        } else {
            0nat
        }) + count(t.drop_first(), a)
    }
}

/// The record after the run (`m` itself after no step).
pub open spec fn last_of(m: Machine, t: Seq<(Machine, Action)>) -> Machine {
    if t.len() == 0 {
        m
    } else {
        t.last().0
    }
}

/// Rule `r` has had its turn on the entry pass: that pass is over, or its
/// position is past `r`, or the body of `r` is running.
pub open spec fn had_turn(m: Machine, r: int) -> bool {
    !m.first || m.rule > r || (m.rule == r && m.phase is AwaitBody)
}

pub proof fn lemma_next_wf(p: Program, m: Machine, reply: Reply)
    requires
        p.wf(),
        m.wf(p),
        m.accepts(reply),
    ensures
        m.next(p, reply).0.wf(p),
{
    if m.phase is AwaitBody {
        assert(p.rule(m.current as int, m.rule as int).wf(p.n_states()));
    }
}

proof fn lemma_turn_step(p: Program, m: Machine, reply: Reply, r: int)
    requires
        p.wf(),
        m.wf(p),
        m.accepts(reply),
        0 <= r < p.n_rules(m.current as int),
        !p.rule(m.current as int, r).has_condition,
        m.next(p, reply).0 != Machine::entered(m.next(p, reply).0.current),
    ensures
        ({
            let (m1, a) = m.next(p, reply);
            let ran = a == Action::RunBody { state: m.current, rule: r as usize, else_branch: false };
            &&& m1.current == m.current
            &&& (if ran {
                1int
            } else {
                0int
            }) + (if had_turn(m, r) {
                1int
            } else {
                0int
            }) == (if had_turn(m1, r) {
                1int
            } else {
                0int
            })
        }),
{
}

/// Within one entry into a state, the body of a rule without a condition runs
/// exactly once: over any run that enters no state, the number of times it is
/// handed out is the change in whether the rule has had its turn. From a fresh
/// entry that is at most one, and exactly one once the first pass is over.
pub proof fn lemma_conditionless_runs_once(p: Program, m: Machine, rs: Seq<Reply>, r: int)
    requires
        p.wf(),
        m.wf(p),
        fits(p, m, rs),
        no_entry(run(p, m, rs)),
        0 <= r < p.n_rules(m.current as int),
        !p.rule(m.current as int, r).has_condition,
    ensures
        ({
            let t = run(p, m, rs);
            let a = Action::RunBody { state: m.current, rule: r as usize, else_branch: false };
            &&& last_of(m, t).current == m.current
            &&& count(t, a) + (if had_turn(m, r) {
                1int
            } else {
                0int
            }) == (if had_turn(last_of(m, t), r) {
                1int
            } else {
                0int
            })
        }),
        m == Machine::entered(m.current) ==> count(
            run(p, m, rs),
            Action::RunBody { state: m.current, rule: r as usize, else_branch: false },
        ) <= 1,
        m == Machine::entered(m.current) && !last_of(m, run(p, m, rs)).first ==> count(
            run(p, m, rs),
            Action::RunBody { state: m.current, rule: r as usize, else_branch: false },
        ) == 1,
    decreases rs.len(),
{
    if rs.len() > 0 {
        let (m1, a) = m.next(p, rs[0]);
        let rest = run(p, m1, rs.drop_first());
        let t = run(p, m, rs);
        assert(t == seq![(m1, a)] + rest);
        assert(t[0] == (m1, a));
        assert(m1 != Machine::entered(m1.current));
        lemma_next_wf(p, m, rs[0]);
        lemma_turn_step(p, m, rs[0], r);
        assert(t.drop_first() =~= rest);
        assert forall|i: int| 0 <= i < rest.len() implies #[trigger] rest[i].0 != Machine::entered(
            rest[i].0.current,
        ) by {
            assert(rest[i] == t[i + 1]);
        }
        lemma_conditionless_runs_once(p, m1, rs.drop_first(), r);
        if rest.len() > 0 {
            assert(t.last() == rest.last());
        }
    }
}

} // verus!
