//! Structural checks on a parsed program, and the resolution of transitions
//! to state indices.
use vstd::prelude::*;
use crate::ast::{BanishStmt, Context, Rule, RuleView, State, StateView, StmtView, stmts_view};
use crate::engine::{Program, RuleShape};

verus! {

#[derive(Debug, Clone, Copy, PartialEq, Eq, Structural)]
pub enum ValidateError {
    /// The state at this index has the name of an earlier state.
    DuplicateState { state: usize },
    /// The rule at this index repeats the name of an earlier rule of its state.
    DuplicateRule { state: usize, rule: usize },
    /// The last state has no transition and no `return` in any branch.
    FinalStateWithoutExit { state: usize },
    /// A transition of this rule names no declared state.
    UnknownTarget { state: usize, rule: usize },
    /// This rule has an else-branch but no condition.
    ElseWithoutCondition { state: usize, rule: usize },
    /// A program without states.
    NoStates,
}

pub open spec fn dup_state_at(v: Seq<StateView>, j: int) -> bool {
    exists|i: int| 0 <= i < j && v[i].name == v[j].name
}

pub open spec fn dup_rule_at(rs: Seq<RuleView>, k: int) -> bool {
    exists|i: int| 0 <= i < k && rs[i].name == rs[k].name
}

/// State `j` repeats an earlier state's name or holds two rules of one name.
pub open spec fn state_bad(v: Seq<StateView>, j: int) -> bool {
    dup_state_at(v, j) || exists|k: int| 0 <= k < v[j].rules.len() && dup_rule_at(v[j].rules, k)
}

/// State names are unique, and rule names are unique within each state.
pub open spec fn names_unique(v: Seq<StateView>) -> bool {
    forall|j: int| 0 <= j < v.len() ==> !state_bad(v, j)
}

/// The outcome of the name check: the first state (in order) that is bad, and
/// within it the state's own name first, then the first repeated rule.
pub open spec fn names_outcome(v: Seq<StateView>, r: Result<(), ValidateError>) -> bool {
    match r {
        Ok(_) => names_unique(v),
        Err(ValidateError::DuplicateState { state }) => state < v.len() && dup_state_at(
            v,
            state as int,
        ) && forall|j: int| 0 <= j < state ==> !state_bad(v, j),
        Err(ValidateError::DuplicateRule { state, rule }) => {
            &&& state < v.len()
            &&& forall|j: int| 0 <= j < state ==> !state_bad(v, j)
            &&& !dup_state_at(v, state as int)
            &&& rule < v[state as int].rules.len()
            &&& dup_rule_at(v[state as int].rules, rule as int)
            &&& forall|k: int| 0 <= k < rule ==> !dup_rule_at(v[state as int].rules, k)
        },
        Err(_) => false,
    }
}

/// Whether a state before `j` has the name of state `j`.
fn earlier_state(states: &Vec<State>, j: usize) -> (r: bool)
    requires
        j < states@.len(),
    ensures
        r == dup_state_at(states@.map_values(|s: State| s@), j as int),
{
    let ghost v = states@.map_values(|s: State| s@);
    let mut i: usize = 0;
    while i < j
        invariant
            i <= j < states@.len(),
            v == states@.map_values(|s: State| s@),
            forall|m: int| 0 <= m < i ==> v[m].name != v[j as int].name,
        decreases j - i,
    {
        if states[i].name == states[j].name {
            assert(0 <= i < j && v[i as int].name == v[j as int].name);
            return true;
        }
        i = i + 1;
    }
    false
}

/// Whether a rule before `k` has the name of rule `k`.
fn earlier_rule(rules: &Vec<Rule>, k: usize) -> (r: bool)
    requires
        k < rules@.len(),
    ensures
        r == dup_rule_at(rules@.map_values(|r: Rule| r@), k as int),
{
    let ghost v = rules@.map_values(|r: Rule| r@);
    let mut i: usize = 0;
    while i < k
        invariant
            i <= k < rules@.len(),
            v == rules@.map_values(|r: Rule| r@),
            forall|m: int| 0 <= m < i ==> v[m].name != v[k as int].name,
        decreases k - i,
    {
        if rules[i].name == rules[k].name {
            assert(0 <= i < k && v[i as int].name == v[k as int].name);
            return true;
        }
        i = i + 1;
    }
    false
}

/// Checks that state names are unique, and rule names unique within each
/// state, reporting the first repetition.
pub fn validate_state_and_rule_names(input: &Context) -> (r: Result<(), ValidateError>)
    ensures
        names_outcome(input@, r),
{
    let ghost v = input@;
    let mut j: usize = 0;
    while j < input.states.len()
        invariant
            j <= input.states@.len(),
            v == input@,
            forall|m: int| 0 <= m < j ==> !state_bad(v, m),
        decreases input.states@.len() - j,
    {
        if earlier_state(&input.states, j) {
            return Err(ValidateError::DuplicateState { state: j });
        }
        let rules = &input.states[j].rules;
        assert(v[j as int].rules == rules@.map_values(|r: Rule| r@));
        let mut k: usize = 0;
        while k < rules.len()
            invariant
                k <= rules@.len(),
                j < input.states@.len(),
                v == input@,
                v[j as int].rules == rules@.map_values(|r: Rule| r@),
                !dup_state_at(v, j as int),
                forall|m: int| 0 <= m < j ==> !state_bad(v, m),
                forall|m: int| 0 <= m < k ==> !dup_rule_at(v[j as int].rules, m),
            decreases rules@.len() - k,
        {
            if earlier_rule(rules, k) {
                assert(0 <= k < v[j as int].rules.len() && dup_rule_at(v[j as int].rules, k as int));
                assert(state_bad(v, j as int));
                return Err(ValidateError::DuplicateRule { state: j, rule: k });
            }
            k = k + 1;
        }
        j = j + 1;
    }
    Ok(())
}

/// A branch holds a transition or a `return` statement.
pub open spec fn stmts_exit(s: Seq<StmtView>) -> bool {
    exists|i: int|
        0 <= i < s.len() && (s[i] is Goto || (s[i] matches StmtView::Host(_, ret) && ret))
}

/// Some rule of the state has a transition or a `return` in its body or in
/// its else-branch.
pub open spec fn state_has_exit(s: StateView) -> bool {
    exists|r: int|
        0 <= r < s.rules.len() && (stmts_exit(s.rules[r].body) || (s.rules[r].else_body matches Some(
            e,
        ) && stmts_exit(e)))
}

fn stmts_have_exit(s: &Vec<BanishStmt>) -> (r: bool)
    ensures
        r == stmts_exit(stmts_view(s@)),
{
    let ghost v = stmts_view(s@);
    let mut i: usize = 0;
    while i < s.len()
        invariant
            i <= s@.len(),
            v == stmts_view(s@),
            forall|m: int|
                0 <= m < i ==> !(v[m] is Goto || (v[m] matches StmtView::Host(_, ret) && ret)),
        decreases s@.len() - i,
    {
        match &s[i] {
            BanishStmt::StateTransition(_) => {
                assert(v[i as int] is Goto);
                return true;
            },
            BanishStmt::Rust(h) => {
                if h.is_return {
                    assert(v[i as int] matches StmtView::Host(_, ret) && ret);
                    return true;
                }
            },
        }
        i = i + 1;
    }
    false
}

/// Checks that the last state can leave the machine: some branch of one of
/// its rules holds a transition or a `return`.
pub fn validate_final_state_has_return_or_transition(input: &Context) -> (r: Result<
    (),
    ValidateError,
>)
    ensures
        r is Ok <==> (input@.len() == 0 || state_has_exit(input@.last())),
        r matches Err(e) ==> e == (ValidateError::FinalStateWithoutExit {
            state: (input@.len() - 1) as usize,
        }),
{
    let n = input.states.len();
    if n == 0 {
        return Ok(());
    }
    let state = &input.states[n - 1];
    let ghost sv = input@.last();
    assert(sv == state@);
    let mut k: usize = 0;
    while k < state.rules.len()
        invariant
            k <= state.rules@.len(),
            sv == state@,
            sv == input@.last(),
            n == input@.len(),
            forall|m: int|
                0 <= m < k ==> !(stmts_exit(sv.rules[m].body) || (sv.rules[m].else_body matches Some(
                    e,
                ) && stmts_exit(e))),
        decreases state.rules@.len() - k,
    {
        let rule = &state.rules[k];
        assert(sv.rules[k as int] == rule@);
        if stmts_have_exit(&rule.body) {
            assert(stmts_exit(sv.rules[k as int].body));
            assert(state_has_exit(sv));
            return Ok(());
        }
        match &rule.else_body {
            Some(e) => {
                if stmts_have_exit(e) {
                    assert(sv.rules[k as int].else_body matches Some(x) && stmts_exit(x));
                    assert(state_has_exit(sv));
                    return Ok(());
                }
            },
            None => {},
        }
        k = k + 1;
    }
    Err(ValidateError::FinalStateWithoutExit { state: n - 1 })
}

/// `t` is the index of the first state named `name`.
pub open spec fn target_of(v: Seq<StateView>, name: Seq<char>, t: int) -> bool {
    &&& 0 <= t < v.len()
    &&& v[t].name == name
    &&& forall|j: int| 0 <= j < t ==> v[j].name != name
}

pub open spec fn names_state(v: Seq<StateView>, name: Seq<char>) -> bool {
    exists|t: int| 0 <= t < v.len() && v[t].name == name
}

/// Every transition of the branch names a declared state.
pub open spec fn gotos_resolve(v: Seq<StateView>, s: Seq<StmtView>) -> bool {
    forall|i: int| 0 <= i < s.len() && #[trigger] s[i] is Goto ==> names_state(v, s[i]->Goto_0)
}

/// `j` is where the branch jumps: the state that its first transition names.
pub open spec fn jump_of(v: Seq<StateView>, s: Seq<StmtView>, j: Option<usize>) -> bool {
    match j {
        None => forall|i: int| 0 <= i < s.len() ==> !(#[trigger] s[i] is Goto),
        Some(t) => exists|i: int|
            0 <= i < s.len() && #[trigger] s[i] is Goto && (forall|m: int|
                0 <= m < i ==> !(#[trigger] s[m] is Goto)) && target_of(v, s[i]->Goto_0, t as int),
    }
}

/// The rule is well formed: an else-branch only beside a condition, and every
/// transition resolves.
pub open spec fn rule_ok(v: Seq<StateView>, r: RuleView) -> bool {
    &&& (r.else_body is Some ==> r.condition is Some)
    &&& gotos_resolve(v, r.body)
    &&& (r.else_body matches Some(e) ==> gotos_resolve(v, e))
}

pub open spec fn rules_ok(v: Seq<StateView>) -> bool {
    forall|s: int, r: int|
        0 <= s < v.len() && 0 <= r < v[s].rules.len() ==> rule_ok(v, #[trigger] v[s].rules[r])
}

/// The run-time shape of a rule, with its transitions resolved.
pub open spec fn shape_of(v: Seq<StateView>, r: RuleView, sh: RuleShape) -> bool {
    &&& sh.has_condition == (r.condition is Some)
    &&& sh.has_else == (r.else_body is Some)
    &&& jump_of(v, r.body, sh.body_jump)
    &&& match r.else_body {
        Some(e) => jump_of(v, e, sh.else_jump),
        None => sh.else_jump is None,
    }
}

/// The program that runs `v`: one entry per state and per rule, in order.
pub open spec fn program_of(v: Seq<StateView>, p: Program) -> bool {
    &&& p.n_states() == v.len()
    &&& forall|s: int| 0 <= s < v.len() ==> #[trigger] p.n_rules(s) == v[s].rules.len()
    &&& forall|s: int, r: int|
        0 <= s < v.len() && 0 <= r < v[s].rules.len() ==> shape_of(
            v,
            v[s].rules[r],
            #[trigger] p.rule(s, r),
        )
}

/// The index of the first state named `name`, if any.
fn find_state(input: &Context, name: &String) -> (r: Option<usize>)
    ensures
        match r {
            Some(t) => target_of(input@, name@, t as int),
            None => !names_state(input@, name@),
        },
{
    let ghost v = input@;
    let mut t: usize = 0;
    while t < input.states.len()
        invariant
            t <= input.states@.len(),
            v == input@,
            forall|j: int| 0 <= j < t ==> v[j].name != name@,
        decreases input.states@.len() - t,
    {
        if input.states[t].name == *name {
            return Some(t);
        }
        t = t + 1;
    }
    None
}

/// Resolves the transitions of one branch: `Ok` with the target of its first
/// transition, or `Err` when one of them names no state.
fn resolve_branch(input: &Context, body: &Vec<BanishStmt>) -> (r: Result<Option<usize>, ()>)
    ensures
        match r {
            Ok(j) => gotos_resolve(input@, stmts_view(body@)) && jump_of(
                input@,
                stmts_view(body@),
                j,
            ),
            Err(_) => !gotos_resolve(input@, stmts_view(body@)),
        },
{
    let ghost v = input@;
    let ghost sv = stmts_view(body@);
    let mut first: Option<usize> = None;
    let mut i: usize = 0;
    while i < body.len()
        invariant
            i <= body@.len(),
            v == input@,
            sv == stmts_view(body@),
            forall|m: int| 0 <= m < i && #[trigger] sv[m] is Goto ==> names_state(v, sv[m]->Goto_0),
            match first {
                None => forall|m: int| 0 <= m < i ==> !(#[trigger] sv[m] is Goto),
                Some(t) => exists|k: int|
                    0 <= k < i && #[trigger] sv[k] is Goto && (forall|m: int|
                        0 <= m < k ==> !(#[trigger] sv[m] is Goto)) && target_of(
                        v,
                        sv[k]->Goto_0,
                        t as int,
                    ),
            },
        decreases body@.len() - i,
    {
        match &body[i] {
            BanishStmt::StateTransition(name) => {
                assert(sv[i as int] is Goto);
                match find_state(input, name) {
                    Some(t) => {
                        if first.is_none() {
                            first = Some(t);
                        }
                    },
                    None => {
                        return Err(());
                    },
                }
            },
            BanishStmt::Rust(_) => {},
        }
        i = i + 1;
    }
    Ok(first)
}

/// Checks every rule's shape and resolves every transition, producing the
/// program that the step machine runs.
pub fn resolve(input: &Context) -> (r: Result<Program, ValidateError>)
    ensures
        match r {
            Ok(p) => rules_ok(input@) && program_of(input@, p),
            Err(ValidateError::ElseWithoutCondition { state, rule }) => state < input@.len()
                && rule < input@[state as int].rules.len() && input@[state as int].rules[rule as int].else_body is Some
                && input@[state as int].rules[rule as int].condition is None,
            Err(ValidateError::UnknownTarget { state, rule }) => state < input@.len()
                && rule < input@[state as int].rules.len() && !rule_ok(input@, input@[state as int].rules[rule as int]),
            Err(_) => false,
        },
{
    let ghost v = input@;
    let mut states: Vec<Vec<RuleShape>> = Vec::new();
    let mut s: usize = 0;
    while s < input.states.len()
        invariant
            s <= input.states@.len(),
            v == input@,
            states@.len() == s,
            forall|a: int, b: int|
                0 <= a < s && 0 <= b < v[a].rules.len() ==> rule_ok(v, #[trigger] v[a].rules[b]),
            forall|a: int| 0 <= a < s ==> #[trigger] states@[a]@.len() == v[a].rules.len(),
            forall|a: int, b: int|
                0 <= a < s && 0 <= b < v[a].rules.len() ==> shape_of(
                    v,
                    v[a].rules[b],
                    #[trigger] states@[a]@[b],
                ),
        decreases input.states@.len() - s,
    {
        let rules = &input.states[s].rules;
        assert(v[s as int].rules == rules@.map_values(|r: Rule| r@));
        let mut shapes: Vec<RuleShape> = Vec::new();
        let mut k: usize = 0;
        while k < rules.len()
            invariant
                k <= rules@.len(),
                s < input.states@.len(),
                v == input@,
                v[s as int].rules == rules@.map_values(|r: Rule| r@),
                shapes@.len() == k,
                forall|b: int| 0 <= b < k ==> rule_ok(v, #[trigger] v[s as int].rules[b]),
                forall|b: int|
                    0 <= b < k ==> shape_of(v, v[s as int].rules[b], #[trigger] shapes@[b]),
            decreases rules@.len() - k,
        {
            let rule = &rules[k];
            assert(v[s as int].rules[k as int] == rule@);
            let has_condition = rule.condition.is_some();
            if rule.else_body.is_some() && !has_condition {
                return Err(ValidateError::ElseWithoutCondition { state: s, rule: k });
            }
            let body_jump = match resolve_branch(input, &rule.body) {
                Ok(j) => j,
                Err(_) => {
                    return Err(ValidateError::UnknownTarget { state: s, rule: k });
                },
            };
            let (has_else, else_jump) = match &rule.else_body {
                Some(e) => match resolve_branch(input, e) {
                    Ok(j) => (true, j),
                    Err(_) => {
                        return Err(ValidateError::UnknownTarget { state: s, rule: k });
                    },
                },
                None => (false, None),
            };
            shapes.push(RuleShape { has_condition, has_else, body_jump, else_jump });
            k = k + 1;
        }
        states.push(shapes);
        s = s + 1;
    }
    let p = Program { states };
    assert(program_of(v, p));
    Ok(p)
}

/// A resolved program is well formed for the step machine.
pub proof fn lemma_resolved_program_wf(v: Seq<StateView>, p: Program)
    requires
        v.len() > 0,
        rules_ok(v),
        program_of(v, p),
    ensures
        p.wf(),
{
    assert forall|s: int, r: int| 0 <= s < p.n_states() && 0 <= r < p.n_rules(s) implies #[trigger] p.rule(
        s,
        r,
    ).wf(p.n_states()) by {
        assert(p.n_rules(s) == v[s].rules.len());
        let rv = v[s].rules[r];
        let sh = p.rule(s, r);
        assert(shape_of(v, rv, sh));
        assert(rule_ok(v, rv));
        if let Some(t) = sh.body_jump {
            let i = choose|i: int|
                0 <= i < rv.body.len() && #[trigger] rv.body[i] is Goto && (forall|m: int|
                    0 <= m < i ==> !(#[trigger] rv.body[m] is Goto)) && target_of(
                    v,
                    rv.body[i]->Goto_0,
                    t as int,
                );
        }
        if let Some(t) = sh.else_jump {
            let e = rv.else_body->Some_0;
            let i = choose|i: int|
                0 <= i < e.len() && #[trigger] e[i] is Goto && (forall|m: int|
                    0 <= m < i ==> !(#[trigger] e[m] is Goto)) && target_of(v, e[i]->Goto_0, t as int);
        }
    }
}

/// Validates a parsed program and resolves it for the step machine: at least
/// one state, unique names, an exit in the last state, else-branches only
/// beside conditions, and transitions that name declared states.
pub fn check(input: &Context) -> (r: Result<Program, ValidateError>)
    ensures
        r is Ok <==> (input@.len() > 0 && names_unique(input@) && state_has_exit(input@.last())
            && rules_ok(input@)),
        match r {
            Ok(p) => program_of(input@, p) && p.wf(),
            Err(ValidateError::NoStates) => input@.len() == 0,
            Err(ValidateError::DuplicateState { .. }) => input@.len() > 0 && names_outcome(
                input@,
                Err::<(), ValidateError>(r->Err_0),
            ),
            Err(ValidateError::DuplicateRule { .. }) => input@.len() > 0 && names_outcome(
                input@,
                Err::<(), ValidateError>(r->Err_0),
            ),
            Err(ValidateError::FinalStateWithoutExit { state }) => input@.len() > 0
                && names_unique(input@) && !state_has_exit(input@.last()) && state == input@.len()
                - 1,
            Err(ValidateError::ElseWithoutCondition { state, rule }) => input@.len() > 0
                && names_unique(input@) && state_has_exit(input@.last()) && state < input@.len()
                && rule < input@[state as int].rules.len()
                && input@[state as int].rules[rule as int].else_body is Some
                && input@[state as int].rules[rule as int].condition is None,
            Err(ValidateError::UnknownTarget { state, rule }) => input@.len() > 0 && names_unique(
                input@,
            ) && state_has_exit(input@.last()) && state < input@.len() && rule < input@[state as int].rules.len()
                && !rule_ok(input@, input@[state as int].rules[rule as int]),
        },
{
    if input.states.len() == 0 {
        return Err(ValidateError::NoStates);
    }
    let names = validate_state_and_rule_names(input);
    if let Err(e) = names {
        proof {
            match e {
                ValidateError::DuplicateState { state } => {
                    assert(state_bad(input@, state as int));
                },
                ValidateError::DuplicateRule { state, rule } => {
                    assert(dup_rule_at(input@[state as int].rules, rule as int));
                    assert(state_bad(input@, state as int));
                },
                _ => {},
            }
        }
        return Err(e);
    }
    let exit = validate_final_state_has_return_or_transition(input);
    if let Err(e) = exit {
        return Err(e);
    }
    match resolve(input) {
        Ok(p) => {
            proof {
                lemma_resolved_program_wf(input@, p);
            }
            Ok(p)
        },
        Err(e) => {
            proof {
                if let ValidateError::UnknownTarget { state, rule } = e {
                    assert(!rules_ok(input@));
                }
                if let ValidateError::ElseWithoutCondition { state, rule } = e {
                    assert(!rule_ok(input@, input@[state as int].rules[rule as int]));
                    assert(!rules_ok(input@));
                }
            }
            Err(e)
        },
    }
}

} // verus!
