// Example programs run through the parser, the checks and the step machine.
// The host side (conditions, statements) is played by the closures given to
// `run`.
use banish::{check, Action, Context, Delim, Machine, Program, Reply, Tok};

fn is_op(c: char) -> bool {
    "=<>!~+-*/%^&|@.,;:#$?'".contains(c)
}

fn lex_seq(c: &[char], pos: &mut usize, close: Option<char>) -> Vec<Tok> {
    let mut out = Vec::new();
    while *pos < c.len() {
        let ch = c[*pos];
        if ch.is_whitespace() {
            *pos += 1;
            continue;
        }
        if Some(ch) == close {
            *pos += 1;
            return out;
        }
        if ch == '(' || ch == '{' || ch == '[' {
            *pos += 1;
            let (d, cl) = match ch {
                '(' => (Delim::Paren, ')'),
                '{' => (Delim::Brace, '}'),
                _ => (Delim::Bracket, ']'),
            };
            let inner = lex_seq(c, pos, Some(cl));
            out.push(Tok::Group(d, inner));
        } else if ch == '"' {
            let start = *pos;
            *pos += 1;
            while c[*pos] != '"' {
                if c[*pos] == '\\' {
                    *pos += 1;
                }
                *pos += 1;
            }
            *pos += 1;
            out.push(Tok::Lit(c[start..*pos].iter().collect()));
        } else if ch.is_alphanumeric() || ch == '_' {
            let start = *pos;
            while *pos < c.len() && (c[*pos].is_alphanumeric() || c[*pos] == '_') {
                *pos += 1;
            }
            let word: String = c[start..*pos].iter().collect();
            if ch.is_ascii_digit() {
                out.push(Tok::Lit(word));
            } else {
                out.push(Tok::Ident(word));
            }
        } else {
            *pos += 1;
            let joint = *pos < c.len() && is_op(c[*pos]);
            out.push(Tok::Punct(ch, joint));
        }
    }
    out
}

fn lex(src: &str) -> Vec<Tok> {
    let chars: Vec<char> = src.chars().collect();
    let mut pos = 0;
    lex_seq(&chars, &mut pos, None)
}

fn compile(src: &str) -> (Context, Program) {
    let ctx = Context::parse(&lex(src)).unwrap();
    let prog = check(&ctx).unwrap();
    (ctx, prog)
}

/// Drives the machine; `body` returns `Some` when the branch returned.
fn run<S, R>(
    p: &Program,
    st: &mut S,
    cond: impl Fn(&S, usize, usize) -> bool,
    body: impl Fn(&mut S, usize, usize, bool) -> Option<R>,
) -> R {
    let mut m = Machine::start();
    let mut reply = Reply::Proceed;
    for _ in 0..10_000_000u64 {
        match m.step(p, reply) {
            Action::Continue => reply = Reply::Proceed,
            Action::EvalCondition { state, rule } => reply = Reply::Condition(cond(st, state, rule)),
            Action::RunBody { state, rule, else_branch } => match body(st, state, rule, else_branch) {
                Some(v) => return v,
                None => reply = Reply::BodyDone,
            },
            Action::FellOffEnd => panic!("the last state fell through"),
        }
    }
    panic!("the program did not finish")
}

const TRAFFIC: &str = r#"
    @red
        announce ? {
            ticks = 0;
            println!("Red light");
        }
        timer ? ticks < 3 {
            ticks += 1;
        }
    @green
        announce ? {
            println!("Green light");
        }
        timer ? ticks < 6 {
            ticks += 1;
        }
    @yellow
        announce ? {
            println!("Yellow light");
        }
        timer ? ticks < 10 {
            ticks += 1;
        } !? {
            loop_count += 1;
            => @red;
        }
        end ? loop_count == 1 { return loop_count; }
"#;

struct Lights {
    ticks: i32,
    loop_count: i32,
    peaks: Vec<i32>,
    bodies: usize,
}

fn traffic_cond(s: &Lights, state: usize, rule: usize) -> bool {
    match (state, rule) {
        (0, 1) => s.ticks < 3,
        (1, 1) => s.ticks < 6,
        (2, 1) => s.ticks < 10,
        (2, 2) => s.loop_count == 1,
        _ => panic!("no condition here"),
    }
}

fn traffic_body(s: &mut Lights, state: usize, rule: usize, else_branch: bool) -> Option<i32> {
    s.bodies += 1;
    match (state, rule, else_branch) {
        (0, 0, false) => s.ticks = 0,
        (0, 1, false) | (1, 1, false) | (2, 1, false) => s.ticks += 1,
        (1, 0, false) | (2, 0, false) => {}
        (2, 1, true) => {
            s.peaks.push(s.ticks);
            s.loop_count += 1;
        }
        (2, 2, false) => return Some(s.loop_count),
        _ => panic!("no such branch"),
    }
    None
}

#[test]
fn test_hello_world_completes() {
    let (ctx, p) = compile(r#"@hello print? { println!("Hello, world!"); return; }"#);
    assert_eq!(ctx.states.len(), 1);
    let body = &ctx.states[0].rules[0].body;
    assert_eq!(body.len(), 2);
    assert!(matches!(&body[0], BanishStmt::Rust(h) if !h.is_return && h.text.starts_with("println")));
    assert!(matches!(&body[1], BanishStmt::Rust(h) if h.is_return));
    let mut runs = 0usize;
    run(&p, &mut runs, |_, _, _| panic!("no condition"), |n, s, r, e| {
        assert_eq!((s, r, e), (0, 0, false));
        *n += 1;
        Some(())
    });
    assert_eq!(runs, 1);
}

#[test]
fn test_traffic_lights_completes() {
    let (_, p) = compile(&TRAFFIC.replace("return loop_count;", "return;"));
    let mut st = Lights { ticks: 0, loop_count: 0, peaks: vec![], bodies: 0 };
    run(&p, &mut st, traffic_cond, traffic_body);
    assert!(st.bodies > 0);
}

#[test]
fn test_traffic_lights_loop_count() {
    let (_, p) = compile(TRAFFIC);
    let mut st = Lights { ticks: 0, loop_count: 0, peaks: vec![], bodies: 0 };
    let loop_count = run(&p, &mut st, traffic_cond, traffic_body);
    assert_eq!(loop_count, 1);
}

#[test]
fn traffic_lights_two_cycles() {
    let (_, p) = compile(TRAFFIC);
    let mut st = Lights { ticks: 0, loop_count: 0, peaks: vec![], bodies: 0 };
    run(&p, &mut st, traffic_cond, traffic_body);
    // the first cycle ran the yellow timer up to 10 and went back to red; the
    // second returned on its first yellow pass
    assert_eq!(st.peaks, vec![10]);
    assert_eq!(st.ticks, 7);
    assert_eq!(st.loop_count, 1);
}

struct Fight {
    player_hp: i32,
    dragon_hp: i32,
    seed: u32,
}

fn roll(f: &mut Fight, lo: i32, hi: i32) -> i32 {
    f.seed = f.seed.wrapping_mul(1103515245).wrapping_add(12345);
    lo + ((f.seed >> 16) as i32).rem_euclid(hi - lo)
}

#[test]
fn test_dragon_fight_completes() {
    let (_, p) = compile(
        r#"
        @player_turn
            attack ? {
                let damage = rng.random_range(5..15);
                dragon_hp -= damage;
            }
            check_win ? dragon_hp <= 0 {
                return "Victory!";
            }
            end_turn ? {
                => @dragon_turn;
            }
        @dragon_turn
            attack ? {
                let damage = rng.random_range(2..20);
                player_hp -= damage;
            }
            halfway ? player_hp <= 10 && dragon_hp <= 25 {
                println!("\nThe battle is getting intense!\n");
            } !? { println!("\nThe dragon is getting weak!\n"); }
            check_loss ? player_hp <= 0 {
                return "Defeat...";
            }
            end_turn ? {
                => @player_turn;
            }
        "#,
    );
    let mut st = Fight { player_hp: 1, dragon_hp: 50, seed: 7 };
    let result: &str = run(
        &p,
        &mut st,
        |f, s, r| match (s, r) {
            (0, 1) => f.dragon_hp <= 0,
            (1, 1) => f.player_hp <= 10 && f.dragon_hp <= 25,
            (1, 2) => f.player_hp <= 0,
            _ => panic!("no condition here"),
        },
        |f, s, r, _| match (s, r) {
            (0, 0) => {
                f.dragon_hp -= roll(f, 5, 15);
                None
            }
            (1, 0) => {
                f.player_hp -= roll(f, 2, 20);
                None
            }
            (0, 1) => Some("Victory!"),
            (1, 2) => Some("Defeat..."),
            _ => None,
        },
    );
    assert_eq!(result, "Defeat...");
}

fn find_index(buffer: &[String], target: &str) -> Option<usize> {
    let (_, p) = compile(
        r#"
        @search
            not_found ? idx >= buffer.len() {
                return None;
            }
            found ? buffer[idx] != target {
                idx += 1;
            } !? { return Some(idx); }
        "#,
    );
    let mut idx = 0usize;
    run(
        &p,
        &mut idx,
        |i, _, r| if r == 0 { *i >= buffer.len() } else { buffer[*i] != target },
        |i, _, r, e| match (r, e) {
            (0, _) => Some(None),
            (1, false) => {
                *i += 1;
                None
            }
            _ => Some(Some(*i)),
        },
    )
}

#[test]
fn test_find_index_found_some() {
    let buffer = ["No".to_string(), "hey".to_string()];
    assert_eq!(find_index(&buffer, "hey"), Some(1));
}

#[test]
fn find_index_not_found() {
    let buffer = ["No".to_string(), "hey".to_string()];
    assert_eq!(find_index(&buffer, "yo"), None);
}

#[test]
fn test_double_for_loop_completes() {
    let (ctx, p) = compile(
        r#"
        @for_loops
            for_x ? x != 10 {
                x += 1;
                cnt += 1;
            } !? {
                x = 0;
                y += 1;
                if y == 10 { return (x, y, cnt); }
                => @for_loops;
            }
        "#,
    );
    assert_eq!(p.states[0][0].else_jump, Some(0));
    assert!(matches!(&ctx.states[0].rules[0].else_body, Some(e) if e.len() == 4));
    let mut st = (0i32, 0i32, 0i32);
    let (x, y, cnt) = run(
        &p,
        &mut st,
        |s, _, _| s.0 != 10,
        |s, _, _, e| {
            if !e {
                s.0 += 1;
                s.2 += 1;
                return None;
            }
            s.0 = 0;
            s.1 += 1;
            if s.1 == 10 {
                return Some(*s);
            }
            None
        },
    );
    assert_eq!(x, 0);
    assert_eq!(y, 10);
    assert_eq!(cnt, 100);
}

use banish::{BanishStmt, ParseError, ValidateError};

fn parse_err(src: &str) -> ParseError {
    match Context::parse(&lex(src)) {
        Err(e) => e,
        Ok(_) => panic!("parsed"),
    }
}

fn check_err(src: &str) -> ValidateError {
    match check(&Context::parse(&lex(src)).unwrap()) {
        Err(e) => e,
        Ok(_) => panic!("validated"),
    }
}

#[test]
fn parses_structure() {
    let (ctx, p) = compile(TRAFFIC);
    let names: Vec<&str> = ctx.states.iter().map(|s| s.name.as_str()).collect();
    assert_eq!(names, vec!["red", "green", "yellow"]);
    let timer = &ctx.states[2].rules[1];
    assert_eq!(timer.name, "timer");
    assert_eq!(timer.condition.as_deref(), Some("ticks < 10 "));
    assert!(ctx.states[0].rules[0].condition.is_none());
    match &timer.else_body.as_ref().unwrap()[1] {
        BanishStmt::StateTransition(t) => assert_eq!(t, "red"),
        _ => panic!("expected a transition"),
    }
    match &ctx.states[2].rules[2].body[0] {
        BanishStmt::Rust(h) => {
            assert!(h.is_return);
            assert!(h.text.starts_with("return"));
            assert!(h.text.contains("loop_count"));
        }
        _ => panic!("expected host code"),
    }
    match &ctx.states[0].rules[0].body[0] {
        BanishStmt::Rust(h) => assert!(!h.is_return),
        _ => panic!("expected host code"),
    }
    assert_eq!(p.states.len(), 3);
    assert_eq!(p.states[2][1].else_jump, Some(0));
    assert_eq!(p.states[2][1].body_jump, None);
    assert!(p.states[2][1].has_else && p.states[2][1].has_condition);
    assert!(!p.states[0][0].has_condition);
}

#[test]
fn conditionless_rule_once_per_entry() {
    // `tick` keeps the state going for five passes; `enter` runs once per entry,
    // and the state is entered twice
    let (_, p) = compile("@a enter ? { e += 1; } tick ? n < 5 { n += 1; } !? { => @b; } @b again ? { => @a; } done ? { return; }");
    let mut st = (0u32, 0u32, 0u32); // (entries seen by `enter`, n, visits to b)
    run(
        &p,
        &mut st,
        |s, _, _| s.1 < 5,
        |s, state, rule, e| {
            match (state, rule, e) {
                (0, 0, _) => s.0 += 1,
                (0, 1, false) => s.1 += 1,
                (0, 1, true) => {}
                (1, 0, _) => {
                    s.2 += 1;
                    if s.2 == 2 {
                        return Some(());
                    }
                    s.1 = 0;
                }
                _ => {}
            }
            None
        },
    );
    assert_eq!(st.0, 2);
}

#[test]
fn else_branch_does_not_keep_state_alive() {
    // `c` is false: its else-branch runs once, the pass is idle and state a
    // falls through to b
    let (_, p) = compile("@a c ? flag { x += 1; } !? { y += 1; } @b r ? { return; }");
    let mut log: Vec<(usize, usize, bool)> = vec![];
    run(&p, &mut log, |_, _, _| false, |l, s, r, e| {
        l.push((s, r, e));
        if s == 1 { Some(()) } else { None }
    });
    assert_eq!(log, vec![(0, 0, true), (1, 0, false)]);
}

#[test]
fn fixed_point_repeats_passes_until_idle() {
    let (_, p) = compile("@a c ? n < 3 { n += 1; } @b r ? { return; }");
    let mut n = 0u32;
    let mut m = Machine::start();
    let mut reply = Reply::Proceed;
    let mut evals = 0;
    loop {
        match m.step(&p, reply) {
            Action::Continue => reply = Reply::Proceed,
            Action::EvalCondition { .. } => {
                evals += 1;
                reply = Reply::Condition(n < 3);
            }
            Action::RunBody { state: 0, .. } => {
                n += 1;
                reply = Reply::BodyDone;
            }
            Action::RunBody { .. } => break,
            Action::FellOffEnd => panic!("fell through"),
        }
    }
    assert_eq!(n, 3);
    assert_eq!(evals, 4);
    assert_eq!(m.current, 1);
}

#[test]
fn falling_off_the_end_is_reported() {
    // built by hand: validation would refuse a last state without exit
    let p = Program { states: vec![vec![]] };
    let mut m = Machine::start();
    assert_eq!(m.step(&p, Reply::Proceed), Action::FellOffEnd);
    assert_eq!(m.step(&p, Reply::Proceed), Action::FellOffEnd);
}

#[test]
fn rejects_duplicate_state() {
    assert_eq!(
        check_err("@a r ? { x += 1; } @a r ? { return; }"),
        ValidateError::DuplicateState { state: 1 }
    );
}

#[test]
fn rejects_duplicate_rule() {
    assert_eq!(
        check_err("@a r ? { x += 1; } @b r ? { return; } s ? c { y += 1; } r ? c { return; }"),
        ValidateError::DuplicateRule { state: 1, rule: 2 }
    );
}

#[test]
fn same_rule_name_in_two_states_is_fine() {
    let (_, p) = compile("@a r ? { x += 1; } @b r ? { return; }");
    assert_eq!(p.states.len(), 2);
}

#[test]
fn rejects_else_without_condition() {
    assert_eq!(parse_err("@a r ? { x += 1; } !? { return; }"), ParseError::ElseWithoutCondition);
}

#[test]
fn rejects_unknown_transition() {
    assert_eq!(
        check_err("@a r ? { x += 1; } s ? c { => @nowhere; } @b r ? { return; }"),
        ValidateError::UnknownTarget { state: 0, rule: 1 }
    );
}

#[test]
fn rejects_final_state_without_exit() {
    assert_eq!(
        check_err("@a r ? { return; } @b r ? { x += 1; }"),
        ValidateError::FinalStateWithoutExit { state: 1 }
    );
}

#[test]
fn exit_in_else_branch_counts() {
    let (_, p) = compile("@a r ? c { x += 1; } !? { return 3; }");
    assert_eq!(p.states[0].len(), 1);
}

#[test]
fn parse_errors() {
    assert_eq!(parse_err(""), ParseError::ExpectedState);
    assert_eq!(parse_err("a ? { }"), ParseError::ExpectedState);
    assert_eq!(parse_err("@ ? { }"), ParseError::ExpectedName);
    assert_eq!(parse_err("@a r { }"), ParseError::ExpectedQuestion);
    assert_eq!(parse_err("@a r ? x < 3"), ParseError::UnexpectedEnd);
    assert_eq!(parse_err("@a r ? x < { }"), ParseError::BadCondition);
    assert_eq!(parse_err("@a r ? x { } !? ;"), ParseError::ExpectedElseBlock);
    assert_eq!(parse_err("@a r ? { => a; }"), ParseError::BadTransition);
    assert_eq!(parse_err("@a r ? { => @a }"), ParseError::BadTransition);
    assert_eq!(parse_err("@a r ? { let = ; }"), ParseError::BadHostCode);
}

#[test]
fn state_without_rules_is_accepted() {
    let (ctx, _) = compile("@empty @last r ? { return; }");
    assert_eq!(ctx.states[0].rules.len(), 0);
}

#[test]
fn one_item_per_host_statement() {
    let (ctx, _) = compile("@a r ? { a; b; => @a; c; } s ? { return; }");
    let body = &ctx.states[0].rules[0].body;
    assert_eq!(body.len(), 4);
    assert!(matches!(&body[0], BanishStmt::Rust(h) if h.text.starts_with('a')));
    assert!(matches!(&body[1], BanishStmt::Rust(h) if h.text.starts_with('b')));
    assert!(matches!(&body[2], BanishStmt::StateTransition(t) if t == "a"));
    assert!(matches!(&body[3], BanishStmt::Rust(h) if h.text.starts_with('c')));
}

#[test]
fn else_branch_statements_in_order() {
    let (ctx, _) = compile(TRAFFIC);
    let e = ctx.states[2].rules[1].else_body.as_ref().unwrap();
    assert_eq!(e.len(), 2);
    assert!(matches!(&e[0], BanishStmt::Rust(h) if h.text.contains("loop_count") && !h.is_return));
}

#[test]
fn program_without_host_code_parses() {
    let ctx = Context::parse(&lex("@s r ? { => @s; } @t q ? { => @s; } !? { }")).err();
    assert_eq!(ctx, Some(ParseError::ElseWithoutCondition));
    let ctx = Context::parse(&lex("@s r ? { => @t; } @t q ? { => @s; }")).unwrap();
    assert_eq!(ctx.states.len(), 2);
    assert!(matches!(&ctx.states[1].rules[0].body[0], BanishStmt::StateTransition(t) if t == "s"));
}
