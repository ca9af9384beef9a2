use firewall_metrics::error::{MalformedKind, ParseError};
use firewall_metrics::iptables::{Counter, IptablesState, Policy, Table};

const SAMPLE: &str = "# Generated by iptables-save\n*filter\n:INPUT ACCEPT [10:840]\n:FORWARD DROP [0:0]\n:OUTPUT accept [7:420]\n[206:10720] -A INPUT -m set --match-set firehol_level1 src -m comment --comment kaese -j DROP\n[3:180] -A INPUT -p tcp -m comment --comment \"allow ssh\" -j ACCEPT\n[1:60] -A OUTPUT -j ACCEPT\nCOMMIT\n# Completed\n*nat\n:PREROUTING ACCEPT [5:300]\nCOMMIT\n";

fn parsed(text: &str) -> IptablesState {
    let mut state = IptablesState::new();
    assert_eq!(state.parse(text), Ok(()));
    state
}

fn refusal(text: &str) -> ParseError {
    let mut state = IptablesState::new();
    let err = state.parse(text).unwrap_err();
    assert!(state.tables().is_empty());
    err
}

fn malformed(line: usize, kind: MalformedKind) -> ParseError {
    ParseError::MalformedInput { line, kind }
}

#[test]
fn new_state_has_no_tables() {
    assert!(IptablesState::new().tables().is_empty());
}

#[test]
fn parses_tables_chains_and_rules_in_order() {
    let state = parsed(SAMPLE);
    let tables = state.tables();
    assert_eq!(tables.len(), 2);
    assert_eq!(tables[0].name(), "filter");
    assert_eq!(tables[1].name(), "nat");
    let chains = tables[0].chains();
    assert_eq!(chains.len(), 3);
    assert_eq!(chains[0].name, "INPUT");
    assert_eq!(chains[0].policy, Policy::Accept);
    assert_eq!(chains[0].counter, Counter::new(10, 840));
    assert_eq!(chains[1].name, "FORWARD");
    assert_eq!(chains[1].policy, Policy::Drop);
    assert_eq!(chains[1].counter, Counter::new(0, 0));
    assert_eq!(chains[2].name, "OUTPUT");
    assert_eq!(chains[2].policy, Policy::Accept);
    assert_eq!(chains[0].rules.len(), 2);
    assert_eq!(chains[1].rules.len(), 0);
    assert_eq!(chains[2].rules.len(), 1);
    let rule = &chains[0].rules[0];
    assert_eq!(
        rule.rule,
        "-A INPUT -m set --match-set firehol_level1 src -m comment --comment kaese -j DROP"
    );
    assert_eq!(rule.counter.packets(), 206);
    assert_eq!(rule.counter.bytes(), 10720);
    let comment = rule.comment.as_ref().unwrap();
    assert_eq!(comment.comment, "kaese");
    assert_eq!(comment.counter, Counter::new(206, 10720));
    let quoted = chains[0].rules[1].comment.as_ref().unwrap();
    assert_eq!(quoted.comment, "allow ssh");
    assert_eq!(quoted.counter, Counter::new(3, 180));
    assert!(chains[2].rules[0].comment.is_none());
    assert_eq!(chains[2].rules[0].rule, "-A OUTPUT -j ACCEPT");
    assert_eq!(tables[1].chains().len(), 1);
    assert_eq!(tables[1].chains()[0].counter, Counter::new(5, 300));
}

#[test]
fn parsing_twice_gives_equal_states() {
    assert_eq!(parsed(SAMPLE), parsed(SAMPLE));
}

#[test]
fn chain_count_is_number_of_distinct_names() {
    let state = parsed(SAMPLE);
    for table in state.tables() {
        let mut names: Vec<&str> = table.chains().iter().map(|c| c.name.as_str()).collect();
        let declared = names.len();
        names.sort();
        names.dedup();
        assert_eq!(names.len(), declared);
    }
    assert_eq!(state.tables()[0].chains().len(), 3);
}

#[test]
fn missing_commit_is_truncated_input() {
    let text = "*filter\n:INPUT ACCEPT [0:0]\n[1:2] -A INPUT -j DROP\n";
    assert_eq!(refusal(text), ParseError::TruncatedInput);
}

#[test]
fn truncation_after_a_complete_table_returns_nothing() {
    let text = "*filter\n:INPUT ACCEPT [0:0]\nCOMMIT\n*nat\n:PREROUTING ACCEPT [0:0]\n";
    assert_eq!(refusal(text), ParseError::TruncatedInput);
}

#[test]
fn duplicate_chain_is_malformed_input() {
    let text = "*filter\n:INPUT ACCEPT [0:0]\n:INPUT DROP [1:1]\nCOMMIT\n";
    let err = refusal(text);
    assert!(matches!(err, ParseError::MalformedInput { .. }));
    assert_eq!(err, malformed(3, MalformedKind::DuplicateChain));
    assert_eq!(err.kind(), Some(MalformedKind::DuplicateChain));
}

#[test]
fn same_chain_name_in_two_tables_is_accepted() {
    let state = parsed("*filter\n:INPUT ACCEPT [0:0]\nCOMMIT\n*mangle\n:INPUT DROP [1:1]\nCOMMIT\n");
    assert_eq!(state.tables().len(), 2);
    assert_eq!(state.tables()[1].chains()[0].policy, Policy::Drop);
}

#[test]
fn table_inside_table_is_refused() {
    assert_eq!(refusal("*filter\n*nat\nCOMMIT\n"), malformed(2, MalformedKind::NestedTable));
}

#[test]
fn commit_without_table_is_refused() {
    assert_eq!(refusal("COMMIT\n"), malformed(1, MalformedKind::StrayCommit));
    assert_eq!(
        refusal("*filter\nCOMMIT\nCOMMIT\n"),
        malformed(3, MalformedKind::StrayCommit)
    );
}

#[test]
fn unknown_line_is_unexpected_token() {
    assert_eq!(refusal("hello\n"), malformed(1, MalformedKind::UnexpectedToken));
    assert_eq!(
        refusal("*filter\nCOMMITTED\n"),
        malformed(2, MalformedKind::UnexpectedToken)
    );
    assert_eq!(
        refusal("*filter\n COMMIT\n"),
        malformed(2, MalformedKind::UnexpectedToken)
    );
}

#[test]
fn empty_line_is_unexpected_token() {
    assert_eq!(
        refusal("*filter\n\nCOMMIT\n"),
        malformed(2, MalformedKind::UnexpectedToken)
    );
}

#[test]
fn unknown_policy_is_refused() {
    assert_eq!(
        refusal("*filter\n:DOCKER - [0:0]\nCOMMIT\n"),
        malformed(2, MalformedKind::InvalidPolicy)
    );
}

#[test]
fn chain_without_three_fields_is_refused() {
    assert_eq!(
        refusal("*filter\n:INPUT ACCEPT\nCOMMIT\n"),
        malformed(2, MalformedKind::MalformedChain)
    );
    assert_eq!(
        refusal("*filter\n: ACCEPT [0:0]\nCOMMIT\n"),
        malformed(2, MalformedKind::MalformedChain)
    );
}

#[test]
fn bad_counters_are_refused() {
    for counter in ["[0:0", "[0;0]", "[:0]", "[0:]", "[a:0]", "[0:0:0]", "[-1:0]", "[+1:0]", "0:0", "[1:18446744073709551616]"] {
        let text = format!("*filter\n:INPUT ACCEPT {}\nCOMMIT\n", counter);
        assert_eq!(refusal(&text), malformed(2, MalformedKind::MalformedCounter));
    }
    assert_eq!(
        refusal("*filter\n:INPUT ACCEPT [0:0]\n[1:x] -A INPUT -j DROP\nCOMMIT\n"),
        malformed(3, MalformedKind::MalformedCounter)
    );
    assert_eq!(
        refusal("*filter\n:INPUT ACCEPT [0:0]\n[1:2 -A INPUT -j DROP\nCOMMIT\n"),
        malformed(3, MalformedKind::MalformedCounter)
    );
}

#[test]
fn counters_hold_the_largest_values() {
    let state = parsed("*filter\n:INPUT ACCEPT [18446744073709551615:007]\nCOMMIT\n");
    assert_eq!(
        state.tables()[0].chains()[0].counter,
        Counter::new(u64::MAX, 7)
    );
}

#[test]
fn rule_for_undeclared_chain_is_refused() {
    assert_eq!(
        refusal("*filter\n:INPUT ACCEPT [0:0]\n[1:2] -A OUTPUT -j DROP\nCOMMIT\n"),
        malformed(3, MalformedKind::UnknownChain)
    );
}

#[test]
fn rule_that_does_not_append_is_refused() {
    assert_eq!(
        refusal("*filter\n:INPUT ACCEPT [0:0]\n[1:2] -I INPUT -j DROP\nCOMMIT\n"),
        malformed(3, MalformedKind::MalformedRule)
    );
    assert_eq!(
        refusal("*filter\n:INPUT ACCEPT [0:0]\n[1:2] -A \nCOMMIT\n"),
        malformed(3, MalformedKind::MalformedRule)
    );
    assert_eq!(
        refusal("*filter\n:INPUT ACCEPT [0:0]\n[1:2]-A INPUT\nCOMMIT\n"),
        malformed(3, MalformedKind::MalformedRule)
    );
}

#[test]
fn rule_with_only_a_chain_name_is_accepted() {
    let state = parsed("*filter\n:INPUT ACCEPT [0:0]\n[1:2] -A INPUT\nCOMMIT\n");
    assert_eq!(state.tables()[0].chains()[0].rules[0].rule, "-A INPUT");
}

#[test]
fn rules_with_the_same_signature_stay_apart() {
    let state = parsed(
        "*filter\n:INPUT ACCEPT [0:0]\n[1:10] -A INPUT -j DROP\n[2:20] -A INPUT -j DROP\nCOMMIT\n",
    );
    let rules = &state.tables()[0].chains()[0].rules;
    assert_eq!(rules.len(), 2);
    assert_eq!(rules[0].rule, rules[1].rule);
    assert_eq!(rules[0].counter, Counter::new(1, 10));
    assert_eq!(rules[1].counter, Counter::new(2, 20));
}

#[test]
fn chains_and_rules_outside_a_table_are_passed_over() {
    let state = parsed(":INPUT ACCEPT [0:0]\n[1:2] -A INPUT -j DROP\n:bad\n[bad\n*filter\nCOMMIT\n");
    assert_eq!(state.tables().len(), 1);
    assert!(state.tables()[0].chains().is_empty());
}

#[test]
fn remarks_are_passed_over_everywhere() {
    let state = parsed("#one\n*filter\n#two\n:INPUT ACCEPT [0:0]\n#\nCOMMIT\n#three");
    assert_eq!(state.tables().len(), 1);
    assert_eq!(state.tables()[0].chains().len(), 1);
}

#[test]
fn carriage_returns_before_line_feeds_are_dropped() {
    let state = parsed("*filter\r\n:INPUT ACCEPT [1:2]\r\n[3:4] -A INPUT -j DROP\r\nCOMMIT\r\n");
    assert_eq!(state.tables()[0].name(), "filter");
    assert_eq!(state.tables()[0].chains()[0].rules[0].rule, "-A INPUT -j DROP");
}

#[test]
fn last_line_needs_no_line_feed() {
    let state = parsed("*filter\nCOMMIT");
    assert_eq!(state.tables().len(), 1);
}

#[test]
fn empty_text_is_an_empty_ruleset() {
    assert!(parsed("").tables().is_empty());
}

#[test]
fn non_ascii_text_is_kept() {
    let state = parsed("*filter\n:INPUT ACCEPT [0:0]\n[1:2] -A INPUT -m comment --comment \"käse für alle\" -j DROP\nCOMMIT\n");
    let rule = &state.tables()[0].chains()[0].rules[0];
    assert_eq!(rule.comment.as_ref().unwrap().comment, "käse für alle");
}

#[test]
fn comment_forms() {
    let cases: [(&str, Option<&str>); 7] = [
        ("-A INPUT -j DROP", None),
        ("-A INPUT --comment", None),
        ("-A INPUT --comment x", Some("x")),
        ("-A INPUT --comment x -j DROP", Some("x")),
        ("-A INPUT --comment \"a b\" -j DROP", Some("a b")),
        ("-A INPUT --comment \"never closed", Some("never closed")),
        ("-A INPUT --comment ", Some("")),
    ];
    for (signature, expected) in cases {
        let text = format!("*filter\n:INPUT ACCEPT [0:0]\n[5:6] {}\nCOMMIT\n", signature);
        let state = parsed(&text);
        let rule = &state.tables()[0].chains()[0].rules[0];
        assert_eq!(rule.rule, signature);
        assert_eq!(rule.comment.as_ref().map(|c| c.comment.as_str()), expected);
        if let Some(c) = &rule.comment {
            assert_eq!(c.counter, Counter::new(5, 6));
        }
    }
}

#[test]
fn a_second_parse_adds_to_the_state() {
    let mut state = parsed("*filter\nCOMMIT\n");
    assert_eq!(state.parse("*nat\nCOMMIT\n"), Ok(()));
    assert_eq!(state.tables().len(), 2);
    assert_eq!(state.tables()[1].name(), "nat");
}

#[test]
fn a_failed_parse_leaves_the_state_as_it_was() {
    let mut state = parsed(SAMPLE);
    let before = state.clone();
    assert_eq!(
        state.parse("*raw\n:PREROUTING ACCEPT [0:0]\nCOMMIT\n*mangle\n"),
        Err(ParseError::TruncatedInput)
    );
    assert_eq!(state, before);
    assert_eq!(
        state.parse("*raw\nCOMMIT\nbogus\n"),
        Err(malformed(3, MalformedKind::UnexpectedToken))
    );
    assert_eq!(state, before);
}

#[test]
fn policy_from_str_ignores_case() {
    for name in ["ACCEPT", "Accept", "accept", "aCcEpT"] {
        assert_eq!(Policy::from_str(name), Ok(Policy::Accept));
    }
    for name in ["DROP", "Drop", "drop", "dRoP"] {
        assert_eq!(Policy::from_str(name), Ok(Policy::Drop));
    }
    for name in ["", "-", "REJECT", "ACCEPT ", "accep", "drops", "\u{1}ccept"] {
        assert_eq!(Policy::from_str(name), Err(MalformedKind::InvalidPolicy));
    }
}

#[test]
fn policy_labels() {
    assert_eq!(Policy::Accept.as_str(), "ACCEPT");
    assert_eq!(Policy::Drop.as_str(), "DROP");
}

#[test]
fn table_parse_chain_and_rule() {
    let mut table = Table::new("filter");
    assert_eq!(table.name(), "filter");
    assert_eq!(table.parse_chain(":INPUT DROP [4:5]"), Ok(()));
    assert_eq!(
        table.parse_chain(":INPUT ACCEPT [0:0]"),
        Err(MalformedKind::DuplicateChain)
    );
    assert_eq!(table.parse_chain("INPUT ACCEPT [0:0]"), Err(MalformedKind::MalformedChain));
    assert_eq!(table.parse_chain(""), Err(MalformedKind::MalformedChain));
    assert_eq!(table.parse_rule("[1:2] -A INPUT -j LOG"), Ok(()));
    assert_eq!(table.parse_rule("[1:2] -A OUTPUT -j LOG"), Err(MalformedKind::UnknownChain));
    assert_eq!(table.parse_rule(""), Err(MalformedKind::MalformedCounter));
    assert_eq!(table.chains().len(), 1);
    assert_eq!(table.chains()[0].policy(), "DROP");
    assert_eq!(table.chains()[0].rules.len(), 1);
    assert_eq!(table.chains()[0].rules[0].counter, Counter::new(1, 2));
}
