use brave_shields_cli::commands::bisect::{
    begin, channel_from_str, channel_to_str, check_resume, estimated_steps, filters_with_exceptions,
    make_exception, new_session, on_answer, parse_answer, parse_rules, require_rules, split_candidates,
    Answer, BisectAction, BisectState,
};
use brave_shields_cli::error::CliError;
use brave_shields_cli::json::JsonValue;
use brave_shields_cli::platform::Channel;

fn s(x: &str) -> JsonValue {
    JsonValue::Str(x.to_string())
}

fn obj(members: Vec<(&str, JsonValue)>) -> JsonValue {
    JsonValue::Object(members.into_iter().map(|(k, v)| (k.to_string(), v)).collect())
}

fn arr(items: Vec<JsonValue>) -> JsonValue {
    JsonValue::Array(items)
}

fn state_doc(rules: Vec<JsonValue>, indices: Vec<JsonValue>, step: Option<i64>) -> JsonValue {
    let mut m = vec![
        ("original_filters", s("")),
        ("channel", s("release")),
        ("all_rules", arr(rules)),
        ("candidate_indices", arr(indices)),
    ];
    if let Some(st) = step {
        m.push(("step", JsonValue::Int(st)));
    }
    obj(m)
}

fn strings(v: &[&str]) -> Vec<String> {
    v.iter().map(|x| x.to_string()).collect()
}

#[test]
fn test_bisect_split_halves_8_rules() {
    let candidates: Vec<usize> = (0..8).collect();
    let (first, second) = split_candidates(&candidates);
    assert_eq!(&first[..], &[0, 1, 2, 3]);
    assert_eq!(&second[..], &[4, 5, 6, 7]);
}

#[test]
fn test_bisect_split_halves_odd() {
    let candidates: Vec<usize> = (0..5).collect();
    let (first, second) = split_candidates(&candidates);
    // First half is smaller
    assert_eq!(&first[..], &[0, 1]);
    assert_eq!(&second[..], &[2, 3, 4]);
}

#[test]
fn test_bisect_split_halves_2() {
    let candidates: Vec<usize> = vec![3, 7];
    let (first, second) = split_candidates(&candidates);
    assert_eq!(&first[..], &[3]);
    assert_eq!(&second[..], &[7]);
}

#[test]
fn test_make_exception_network_rule() {
    assert_eq!(make_exception("||example.com^"), "@@||example.com^");
}

#[test]
fn test_make_exception_cosmetic_rule() {
    assert_eq!(make_exception("example.com##.ad-banner"), "example.com#@#.ad-banner");
}

#[test]
fn test_make_exception_already_exception_network() {
    assert_eq!(make_exception("@@||example.com^"), "@@||example.com^");
}

#[test]
fn test_make_exception_already_exception_cosmetic() {
    assert_eq!(make_exception("#@#.ad-banner"), "#@#.ad-banner");
}

#[test]
fn test_make_exception_cosmetic_no_domain() {
    // ##.ad is a global cosmetic rule (no domain), still uses #@# exception
    assert_eq!(make_exception("##.ad"), "#@#.ad");
}

#[test]
fn test_make_exception_scriptlet() {
    // Scriptlet injection: ###+js(...) should get @@ prefix, not #@#
    assert_eq!(
        make_exception("example.com###+js(abort-on-property-read, foo)"),
        "@@example.com###+js(abort-on-property-read, foo)"
    );
}

#[test]
fn test_make_exception_cosmetic_with_subdomain() {
    assert_eq!(make_exception("sub.example.com##div.ad"), "sub.example.com#@#div.ad");
}

#[test]
fn test_from_json_rejects_non_integer_indices() {
    let v = state_doc(vec![s("||a.com^")], vec![JsonValue::Int(0), s("bad"), JsonValue::Int(2)], Some(0));
    let result = BisectState::from_json(&v);
    assert!(result.is_err());
}

#[test]
fn test_from_json_rejects_out_of_bounds_indices() {
    let v = state_doc(vec![s("||a.com^")], vec![JsonValue::Int(0), JsonValue::Int(99)], Some(0));
    let result = BisectState::from_json(&v);
    assert!(result.is_err());
    assert!(result.err().unwrap().message().contains("out of range"));
}

#[test]
fn test_from_json_rejects_non_string_rules() {
    let v = state_doc(vec![s("||a.com^"), JsonValue::Int(42)], vec![JsonValue::Int(0)], Some(0));
    let result = BisectState::from_json(&v);
    assert!(result.is_err());
    assert!(result.err().unwrap().message().contains("non-string"));
}

#[test]
fn test_from_json_rejects_missing_step() {
    let v = state_doc(vec![s("||a.com^")], vec![JsonValue::Int(0)], None);
    let result = BisectState::from_json(&v);
    assert!(result.is_err());
}

// ---- further cases of this library ----

#[test]
fn state_round_trips_through_json() {
    let state = BisectState {
        original_filters: "||original.com^".to_string(),
        channel: "nightly".to_string(),
        all_rules: strings(&["||a.com^", "||b.com^"]),
        candidate_indices: vec![0, 1],
        step: 5,
    };
    let loaded = BisectState::from_json(&state.to_json()).unwrap();
    assert_eq!(loaded.original_filters, "||original.com^");
    assert_eq!(loaded.channel, "nightly");
    assert_eq!(loaded.all_rules, strings(&["||a.com^", "||b.com^"]));
    assert_eq!(loaded.candidate_indices, vec![0, 1]);
    assert_eq!(loaded.step, 5);
}

#[test]
fn from_json_reports_the_first_missing_field() {
    let v = obj(vec![("channel", s("release"))]);
    match BisectState::from_json(&v) {
        Err(CliError::MissingStateField { name }) => assert_eq!(name, "original_filters"),
        other => panic!("unexpected {:?}", other),
    }
    match BisectState::from_json(&JsonValue::Null) {
        Err(e) => assert_eq!(e.message(), "missing original_filters"),
        Ok(_) => panic!("accepted null"),
    }
}

#[test]
fn from_json_reports_index_and_count() {
    let v = state_doc(vec![s("a"), s("b")], vec![JsonValue::Int(1), JsonValue::Int(5), JsonValue::Int(9)], Some(1));
    match BisectState::from_json(&v) {
        Err(e) => {
            assert!(matches!(e, CliError::CandidateOutOfRange { index: 5, len: 2 }));
            assert_eq!(e.message(), "candidate index 5 out of range (2)");
        }
        Ok(_) => panic!("accepted an out of range index"),
    }
}

#[test]
fn channel_names_round_trip() {
    for c in [Channel::Release, Channel::Beta, Channel::Nightly, Channel::Dev] {
        assert_eq!(channel_from_str(channel_to_str(c)).unwrap(), c);
    }
    assert!(matches!(channel_from_str("canary"), Err(CliError::UnknownChannel { .. })));
}

#[test]
fn parse_rules_skips_blank_lines_and_comments() {
    assert_eq!(parse_rules("||a.com^\n\n||b.com^\n!comment\n\n"), strings(&["||a.com^", "||b.com^"]));
    assert_eq!(parse_rules("!title\n||a.com^\n! another comment\n||b.com^"), strings(&["||a.com^", "||b.com^"]));
    assert!(parse_rules("\n\n").is_empty());
    assert!(parse_rules("! comment 1\n! comment 2\n").is_empty());
}

#[test]
fn working_filters_except_the_chosen_rules() {
    let rules = strings(&["||a.com^", "||b.com^", "||c.com^", "||d.com^"]);
    assert_eq!(filters_with_exceptions(&rules, &vec![]), "||a.com^\n||b.com^\n||c.com^\n||d.com^");
    assert_eq!(filters_with_exceptions(&rules, &vec![0, 1]), "@@||a.com^\n@@||b.com^\n||c.com^\n||d.com^");
    let rules = strings(&["||a.com^", "@@||b.com^", "||c.com^"]);
    assert_eq!(filters_with_exceptions(&rules, &vec![0, 1]), "@@||a.com^\n@@||b.com^\n||c.com^");
    let rules = strings(&["||a.com^", "||b.com^", "||c.com^"]);
    assert_eq!(filters_with_exceptions(&rules, &vec![1]), "||a.com^\n@@||b.com^\n||c.com^");
}

#[test]
fn estimated_steps_is_ceil_log2() {
    assert_eq!(estimated_steps(0), 1);
    assert_eq!(estimated_steps(1), 1);
    assert_eq!(estimated_steps(2), 1);
    assert_eq!(estimated_steps(3), 2);
    assert_eq!(estimated_steps(4), 2);
    assert_eq!(estimated_steps(5), 3);
    assert_eq!(estimated_steps(8), 3);
    assert_eq!(estimated_steps(9), 4);
    assert_eq!(estimated_steps(1 << 20), 20);
}

#[test]
fn answers_are_read_loosely() {
    assert_eq!(parse_answer("y"), Some(Answer::Yes));
    assert_eq!(parse_answer("  YES \n"), Some(Answer::Yes));
    assert_eq!(parse_answer("No"), Some(Answer::No));
    assert_eq!(parse_answer("q"), Some(Answer::Quit));
    assert_eq!(parse_answer("QUIT"), Some(Answer::Quit));
    assert_eq!(parse_answer("maybe"), None);
    assert_eq!(parse_answer(""), None);
}

#[test]
fn empty_rules_file_is_refused() {
    match require_rules(&vec![], "rules.txt") {
        Err(e) => assert_eq!(e.message(), "no filter rules found in rules.txt"),
        Ok(()) => panic!("accepted no rules"),
    }
    assert!(require_rules(&strings(&["||a.com^"]), "rules.txt").is_ok());
}

fn local_state_with_filters(f: &str) -> JsonValue {
    obj(vec![("brave", obj(vec![("ad_block", obj(vec![("custom_filters", s(f))]))]))])
}

/// Run a session with a user who answers truthfully for the rule at `culprit`.
fn run_truthful(rules: &[&str], culprit: usize) -> (String, u32) {
    let mut state = new_session(strings(rules), &local_state_with_filters("||orig.com^"), Channel::Release);
    assert_eq!(state.original_filters, "||orig.com^");
    assert_eq!(state.channel, "release");
    let mut t = begin(&mut state, false);
    loop {
        match t.action {
            BisectAction::Ask { excepted } => {
                let answer = if state.step == 0 || !excepted.contains(&culprit) { Answer::Yes } else { Answer::No };
                t = on_answer(&mut state, answer, false);
            }
            BisectAction::Found { rule } => return (rule, state.step),
            other => panic!("unexpected {:?}", other),
        }
    }
}

#[test]
fn bisect_finds_each_rule() {
    let rules = ["||r0.com^", "||r1.com^", "||r2.com^", "||r3.com^", "||r4.com^", "||r5.com^", "||r6.com^", "||r7.com^"];
    for culprit in 0..rules.len() {
        let (rule, steps) = run_truthful(&rules, culprit);
        assert_eq!(rule, rules[culprit]);
        assert_eq!(steps, 3);
    }
    let (rule, steps) = run_truthful(&["||a.com^", "||b.com^", "||c.com^", "||d.com^", "||e.com^"], 2);
    assert_eq!(rule, "||c.com^");
    assert!(steps <= estimated_steps(5));
}

#[test]
fn bisect_eight_rules_scenario() {
    // bad rule r5: initial y, then y, n, y
    let rules = strings(&["||r0.com^", "||r1.com^", "||r2.com^", "||r3.com^", "||r4.com^", "||r5.com^", "||r6.com^", "||r7.com^"]);
    let mut state = new_session(rules, &JsonValue::Null, Channel::Release);
    let t = begin(&mut state, false);
    assert!(matches!(t.action, BisectAction::Ask { ref excepted } if excepted.is_empty()));
    let t = on_answer(&mut state, Answer::Yes, false);
    assert!(matches!(t.action, BisectAction::Ask { ref excepted } if excepted == &vec![0, 1, 2, 3]));
    let t = on_answer(&mut state, Answer::Yes, false);
    let saved = BisectState::from_json(t.save.as_ref().unwrap()).unwrap();
    assert_eq!(saved.step, 1);
    assert_eq!(saved.candidate_indices, vec![4, 5, 6, 7]);
    assert_eq!(state.step, 2);
    assert_eq!(state.candidate_indices, vec![4, 5, 6, 7]);
    assert!(matches!(t.action, BisectAction::Ask { ref excepted } if excepted == &vec![4, 5]));
    let t = on_answer(&mut state, Answer::No, false);
    assert_eq!(state.candidate_indices, vec![4, 5]);
    assert!(matches!(t.action, BisectAction::Ask { ref excepted } if excepted == &vec![4]));
    let t = on_answer(&mut state, Answer::Yes, false);
    match t.action {
        BisectAction::Found { rule } => assert_eq!(rule, "||r5.com^"),
        other => panic!("unexpected {:?}", other),
    }
}

#[test]
fn bisect_single_rule_and_initial_no_and_quit() {
    let mut state = new_session(strings(&["||bad.com^"]), &JsonValue::Null, Channel::Release);
    let _ = begin(&mut state, false);
    match on_answer(&mut state, Answer::Yes, false).action {
        BisectAction::Found { rule } => assert_eq!(rule, "||bad.com^"),
        other => panic!("unexpected {:?}", other),
    }

    let mut state = new_session(strings(&["||a.com^", "||b.com^"]), &JsonValue::Null, Channel::Release);
    let _ = begin(&mut state, false);
    let t = on_answer(&mut state, Answer::No, false);
    assert!(matches!(t.action, BisectAction::NothingToBisect));
    assert!(t.save.is_none());

    let mut state = new_session(strings(&["||a.com^", "||b.com^"]), &JsonValue::Null, Channel::Release);
    let _ = begin(&mut state, false);
    let _ = on_answer(&mut state, Answer::Yes, false);
    let t = on_answer(&mut state, Answer::Quit, false);
    assert!(matches!(t.action, BisectAction::Suspend));
    let saved = BisectState::from_json(t.save.as_ref().unwrap()).unwrap();
    assert_eq!(saved.step, 1);
    assert_eq!(saved.candidate_indices, vec![0, 1]);
    assert_eq!(state.candidate_indices, vec![0, 1]);
}

#[test]
fn interrupted_session_suspends_before_the_next_step() {
    let mut state = new_session(strings(&["a", "b", "c", "d"]), &JsonValue::Null, Channel::Release);
    let _ = begin(&mut state, false);
    let t = on_answer(&mut state, Answer::Yes, true);
    assert!(matches!(t.action, BisectAction::Suspend));
    assert_eq!(state.step, 0);
}

#[test]
fn resume_checks_channel_and_candidates() {
    let resumed = BisectState {
        original_filters: String::new(),
        channel: "release".to_string(),
        all_rules: strings(&["||a.com^", "||b.com^", "||c.com^"]),
        candidate_indices: vec![1, 2],
        step: 1,
    };
    assert!(check_resume(&resumed, Channel::Release).is_ok());
    match check_resume(&resumed, Channel::Nightly) {
        Err(e) => assert!(e.message().contains("does not match")),
        Ok(()) => panic!("accepted another channel"),
    }
    let mut resumed = resumed;
    let t = begin(&mut resumed, false);
    assert!(matches!(t.action, BisectAction::Ask { ref excepted } if excepted == &vec![1]));
    match on_answer(&mut resumed, Answer::Yes, false).action {
        BisectAction::Found { rule } => assert_eq!(rule, "||c.com^"),
        other => panic!("unexpected {:?}", other),
    }
    let empty = BisectState {
        original_filters: String::new(),
        channel: "release".to_string(),
        all_rules: strings(&["x"]),
        candidate_indices: vec![],
        step: 2,
    };
    assert!(matches!(check_resume(&empty, Channel::Release), Err(CliError::NoCandidates)));
}

#[test]
fn session_keeps_the_filters_to_restore() {
    let rules = strings(&["||r0.com^", "||r1.com^", "||r2.com^", "||r3.com^"]);
    let ls = local_state_with_filters("||keep.com^\n! note");
    let mut state = new_session(rules.clone(), &ls, Channel::Beta);
    assert_eq!(state.original_filters, "||keep.com^\n! note");
    let _ = begin(&mut state, false);
    for answer in [Answer::Yes, Answer::No, Answer::Yes] {
        let _ = on_answer(&mut state, answer, false);
        assert_eq!(state.original_filters, "||keep.com^\n! note");
        assert_eq!(state.all_rules, rules);
        assert_eq!(state.channel, "beta");
    }
}

#[test]
fn answered_step_is_saved_before_the_next_step() {
    let mut state = new_session(strings(&["a", "b", "c", "d", "e", "f", "g", "h"]), &JsonValue::Null, Channel::Release);
    let _ = begin(&mut state, false);
    let _ = on_answer(&mut state, Answer::Yes, false);
    assert_eq!(state.step, 1);
    let t = on_answer(&mut state, Answer::No, false);
    let saved = BisectState::from_json(t.save.as_ref().unwrap()).unwrap();
    assert_eq!((saved.step, saved.candidate_indices.clone()), (1, vec![0, 1, 2, 3]));
    let mut resumed = saved;
    let t = begin(&mut resumed, false);
    assert!(t.save.is_none());
    assert_eq!(resumed.step, 2);
    assert!(matches!(t.action, BisectAction::Ask { ref excepted } if excepted == &vec![0, 1]));
}

#[test]
fn cosmetic_exceptions_with_a_domain_stay_as_they_are() {
    assert_eq!(make_exception("example.com#@#.ad-banner"), "example.com#@#.ad-banner");
    assert_eq!(make_exception("a.com,b.com#@#div"), "a.com,b.com#@#div");
    assert_eq!(make_exception(&make_exception("example.com##.ad")), "example.com#@#.ad");
    assert_eq!(make_exception(&make_exception("||x.com^")), "@@||x.com^");
}

#[test]
fn truthful_sessions_find_the_culprit_within_ceil_log2_steps() {
    let all: Vec<String> = (0..9).map(|i| format!("||r{}.com^", i)).collect();
    for n in 1..=9usize {
        let rules: Vec<&str> = all[..n].iter().map(|s| s.as_str()).collect();
        for culprit in 0..n {
            let (rule, steps) = run_truthful(&rules, culprit);
            assert_eq!(rule, rules[culprit]);
            if n == 1 {
                assert_eq!(steps, 0);
            } else {
                assert!(steps <= estimated_steps(n));
            }
        }
    }
}
