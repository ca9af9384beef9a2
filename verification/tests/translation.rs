use firewall_metrics::ipset::metrics::{set_descriptors, MetricsIpset};
use firewall_metrics::ipset::IpsetState;
use firewall_metrics::iptables::metrics::{
    observe_ruleset, ruleset_descriptors, MetricsIptables, TargetMetricsIptables,
};
use firewall_metrics::iptables::IptablesState;
use firewall_metrics::metrics::translator::Translator;
use firewall_metrics::metrics::{full_metric_name, gauge_value_of, Metric, Sample};

fn labels(values: &[&str]) -> Vec<String> {
    values.iter().map(|s| s.to_string()).collect()
}

fn sample(metric: Metric, values: &[&str], value: u64) -> Sample {
    Sample { metric, labels: labels(values), value }
}

#[test]
fn reset_scenario() {
    let mut translator = Translator::new();
    let key = labels(&["filter", "INPUT"]);
    let mut exported = 0u64;
    let mut seen = Vec::new();
    for snapshot in [100u64, 250, 30] {
        let inc = translator.observe(Metric::ChainBytesTotal, &key, snapshot);
        exported += inc;
        seen.push((inc, exported));
    }
    assert_eq!(seen, vec![(100, 100), (150, 250), (30, 280)]);
    assert_eq!(translator.baseline(Metric::ChainBytesTotal, &key), Some(30));
}

#[test]
fn exported_value_never_falls() {
    let mut translator = Translator::new();
    let key = labels(&["t", "c", "r"]);
    let snapshots = [5u64, 5, 9, 0, 0, 3, 2, u64::MAX, 1];
    let mut exported = 0u128;
    let mut last = None;
    for s in snapshots {
        let inc = translator.observe(Metric::RulePacketsTotal, &key, s);
        let expected = match last {
            None => s,
            Some(b) if s >= b => s - b,
            Some(_) => s,
        };
        assert_eq!(inc, expected);
        let next = exported + inc as u128;
        assert!(next >= exported);
        exported = next;
        last = Some(s);
    }
}

#[test]
fn keys_are_told_apart_by_metric_and_labels() {
    let mut translator = Translator::new();
    assert_eq!(translator.len(), 0);
    assert_eq!(translator.baseline(Metric::RuleBytesTotal, &labels(&["a"])), None);
    assert_eq!(translator.observe(Metric::RuleBytesTotal, &labels(&["a", "b"]), 10), 10);
    assert_eq!(translator.observe(Metric::RulePacketsTotal, &labels(&["a", "b"]), 7), 7);
    assert_eq!(translator.observe(Metric::RuleBytesTotal, &labels(&["a", "c"]), 4), 4);
    assert_eq!(translator.observe(Metric::RuleBytesTotal, &labels(&["a"]), 3), 3);
    assert_eq!(translator.observe(Metric::RuleBytesTotal, &labels(&["ab"]), 2), 2);
    assert_eq!(translator.observe(Metric::RuleBytesTotal, &labels(&[]), 1), 1);
    assert_eq!(translator.len(), 6);
    assert_eq!(translator.observe(Metric::RuleBytesTotal, &labels(&["a", "b"]), 15), 5);
    assert_eq!(translator.observe(Metric::RulePacketsTotal, &labels(&["a", "b"]), 7), 0);
    assert_eq!(translator.len(), 6);
    assert_eq!(translator.baseline(Metric::RuleBytesTotal, &labels(&["a", "b"])), Some(15));
    assert_eq!(translator.baseline(Metric::RuleBytesTotal, &labels(&["a", "c"])), Some(4));
}

#[test]
fn translate_replaces_snapshots_of_counters_only() {
    let mut translator = Translator::new();
    let first = translator.translate(vec![
        sample(Metric::ChainsTotal, &["filter"], 3),
        sample(Metric::ChainBytesTotal, &["filter", "INPUT"], 100),
        sample(Metric::RulesTotal, &["filter", "INPUT"], 2),
    ]);
    assert_eq!(
        first,
        vec![
            sample(Metric::ChainsTotal, &["filter"], 3),
            sample(Metric::ChainBytesTotal, &["filter", "INPUT"], 100),
            sample(Metric::RulesTotal, &["filter", "INPUT"], 2),
        ]
    );
    assert_eq!(translator.len(), 1);
    let second = translator.translate(vec![
        sample(Metric::ChainsTotal, &["filter"], 3),
        sample(Metric::ChainBytesTotal, &["filter", "INPUT"], 130),
        sample(Metric::ChainBytesTotal, &["filter", "INPUT"], 20),
    ]);
    assert_eq!(second[0].value, 3);
    assert_eq!(second[1].value, 30);
    assert_eq!(second[2].value, 20);
}

#[test]
fn ruleset_samples_in_walk_order() {
    let mut state = IptablesState::new();
    assert_eq!(
        state.parse("*filter\n:INPUT DROP [10:840]\n:OUTPUT ACCEPT [1:2]\n[3:180] -A INPUT -m comment --comment ssh -j ACCEPT\n[4:5] -A INPUT -j LOG\nCOMMIT\n*nat\nCOMMIT\n"),
        Ok(())
    );
    let samples = observe_ruleset(&state);
    let sig = "-A INPUT -m comment --comment ssh -j ACCEPT";
    assert_eq!(
        samples,
        vec![
            sample(Metric::ChainsTotal, &["filter"], 2),
            sample(Metric::ChainBytesTotal, &["filter", "INPUT"], 840),
            sample(Metric::ChainPacketsTotal, &["filter", "INPUT"], 10),
            sample(Metric::RulesTotal, &["filter", "INPUT"], 2),
            sample(Metric::RulePacketsTotal, &["filter", "INPUT", sig], 3),
            sample(Metric::RuleBytesTotal, &["filter", "INPUT", sig], 180),
            sample(Metric::CommentPacketsTotal, &["filter", "INPUT", "ssh"], 3),
            sample(Metric::CommentBytesTotal, &["filter", "INPUT", "ssh"], 180),
            sample(Metric::RulePacketsTotal, &["filter", "INPUT", "-A INPUT -j LOG"], 4),
            sample(Metric::RuleBytesTotal, &["filter", "INPUT", "-A INPUT -j LOG"], 5),
            sample(Metric::ChainBytesTotal, &["filter", "OUTPUT"], 2),
            sample(Metric::ChainPacketsTotal, &["filter", "OUTPUT"], 1),
            sample(Metric::RulesTotal, &["filter", "OUTPUT"], 0),
            sample(Metric::ChainsTotal, &["nat"], 0),
        ]
    );
    for s in &samples {
        assert_eq!(s.labels.len(), s.metric.label_names_vec().len());
    }
}

#[test]
fn metric_names_and_kinds() {
    assert_eq!(Metric::ChainsTotal.name_str(), "chains_total");
    assert_eq!(Metric::CommentPacketsTotal.name_str(), "comment_packets_total");
    assert_eq!(Metric::EntriesTotal.name_str(), "entries_total");
    assert!(!Metric::ChainsTotal.counter());
    assert!(!Metric::RulesTotal.counter());
    assert!(!Metric::EntriesTotal.counter());
    assert!(Metric::ChainBytesTotal.counter());
    assert!(Metric::CommentPacketsTotal.counter());
    assert_eq!(Metric::ChainBytesTotal.label_names_vec(), labels(&["table", "chain"]));
    assert_eq!(Metric::RulesTotal.label_names_vec(), labels(&["table", "chain"]));
    assert_eq!(Metric::EntriesTotal.label_names_vec(), labels(&["list"]));
    assert!(!Metric::RuleBytesTotal.help().is_empty());
}

#[test]
fn full_names_replace_hyphens_in_the_target() {
    assert_eq!(full_metric_name("iptables", Metric::ChainsTotal), "iptables_chains_total");
    assert_eq!(
        full_metric_name("ip6tables-legacy", Metric::RuleBytesTotal),
        "ip6tables_legacy_rule_bytes_total"
    );
    assert_eq!(full_metric_name("a-b-c", Metric::IpsTotal), "a_b_c_ips_total");
    assert_eq!(full_metric_name("", Metric::IpsTotal), "_ips_total");
}

#[test]
fn ruleset_descriptors_in_registration_order() {
    let d = ruleset_descriptors("iptables-legacy");
    let names: Vec<&str> = d.iter().map(|x| x.name.as_str()).collect();
    assert_eq!(
        names,
        vec![
            "iptables_legacy_chain_bytes_total",
            "iptables_legacy_chain_packets_total",
            "iptables_legacy_comment_bytes_total",
            "iptables_legacy_comment_packets_total",
            "iptables_legacy_rule_bytes_total",
            "iptables_legacy_rule_packets_total",
            "iptables_legacy_rules_total",
            "iptables_legacy_chains_total",
        ]
    );
    assert_eq!(d[0].metric, Metric::ChainBytesTotal);
    assert_eq!(d[0].help, "Total bytes flowing through a given chain");
    assert_eq!(d[0].label_names, labels(&["table", "chain"]));
    assert_eq!(d[2].label_names, labels(&["table", "chain", "comment"]));
    assert_eq!(d[4].label_names, labels(&["table", "chain", "rule"]));
    assert_eq!(d[6].label_names, labels(&["table", "chain"]));
    assert_eq!(d[7].label_names, labels(&["table"]));
    assert_eq!(d[7].help, "Total number of chains in a table");
}

#[test]
fn set_descriptors_are_entries_and_ips() {
    let d = set_descriptors();
    assert_eq!(d.len(), 2);
    assert_eq!(d[0].name, "ipset_entries_total");
    assert_eq!(d[0].help, "Total number of entries in the ipset");
    assert_eq!(d[1].name, "ipset_ips_total");
    assert_eq!(d[1].help, "Total number individual IPs");
    assert_eq!(d[0].label_names, labels(&["list"]));
    assert_eq!(d[1].label_names, labels(&["list"]));
}

#[test]
fn ruleset_update_yields_increments_per_target() {
    let mut metrics = MetricsIptables::new(&labels(&["iptables", "ip6tables"]));
    let mut first = IptablesState::new();
    assert_eq!(first.parse("*filter\n:INPUT ACCEPT [10:100]\nCOMMIT\n"), Ok(()));
    let mut second = IptablesState::new();
    assert_eq!(second.parse("*filter\n:INPUT ACCEPT [25:90]\nCOMMIT\n"), Ok(()));

    let a = metrics.update("iptables", &first);
    assert_eq!(
        a,
        vec![
            sample(Metric::ChainsTotal, &["filter"], 1),
            sample(Metric::ChainBytesTotal, &["filter", "INPUT"], 100),
            sample(Metric::ChainPacketsTotal, &["filter", "INPUT"], 10),
            sample(Metric::RulesTotal, &["filter", "INPUT"], 0),
        ]
    );
    let b = metrics.update("iptables", &second);
    assert_eq!(b[1], sample(Metric::ChainBytesTotal, &["filter", "INPUT"], 90));
    assert_eq!(b[2], sample(Metric::ChainPacketsTotal, &["filter", "INPUT"], 15));
    let c = metrics.update("ip6tables", &second);
    assert_eq!(c[1].value, 90);
    assert_eq!(c[2].value, 25);
    assert!(metrics.update("nftables", &second).is_empty());
    let d = metrics.update("iptables", &second);
    assert_eq!(d[0].value, 1);
    assert_eq!(d[1].value, 0);
    assert_eq!(d[2].value, 0);
}

#[test]
fn rules_with_the_same_signature_share_a_counter() {
    let mut metrics = TargetMetricsIptables::new();
    let mut state = IptablesState::new();
    assert_eq!(
        state.parse("*filter\n:INPUT ACCEPT [0:0]\n[5:50] -A INPUT -j DROP\n[7:30] -A INPUT -j DROP\nCOMMIT\n"),
        Ok(())
    );
    let out = metrics.update(&state);
    let packets: Vec<u64> = out
        .iter()
        .filter(|s| s.metric == Metric::RulePacketsTotal)
        .map(|s| s.value)
        .collect();
    let bytes: Vec<u64> = out
        .iter()
        .filter(|s| s.metric == Metric::RuleBytesTotal)
        .map(|s| s.value)
        .collect();
    assert_eq!(packets, vec![5, 2]);
    assert_eq!(bytes, vec![50, 30]);
}

#[test]
fn set_update_yields_member_counts() {
    let mut state = IpsetState::new("^$").unwrap();
    assert_eq!(
        state.parse("Name: a\nMembers:\n1.1.1.1\n2.2.2.0/24\n\nName: b\nMembers:\n"),
        Ok(())
    );
    let mut on = MetricsIpset::new(&labels(&["iptables", "ipset"]));
    assert_eq!(
        on.update("ipset", &state),
        vec![
            sample(Metric::EntriesTotal, &["a"], 2),
            sample(Metric::EntriesTotal, &["b"], 0),
        ]
    );
    assert!(on.update("iptables", &state).is_empty());
    let mut off = MetricsIpset::new(&labels(&["iptables"]));
    assert!(off.update("ipset", &state).is_empty());
}

#[test]
fn gauge_values_stop_at_the_largest_gauge() {
    assert_eq!(gauge_value_of(0), 0);
    assert_eq!(gauge_value_of(41), 41);
    assert_eq!(gauge_value_of(i64::MAX as u64), i64::MAX);
    assert_eq!(gauge_value_of(i64::MAX as u64 + 1), i64::MAX);
    assert_eq!(gauge_value_of(u64::MAX), i64::MAX);
}

#[test]
fn a_change_of_policy_keeps_the_baseline_of_a_chain() {
    let mut metrics = TargetMetricsIptables::new();
    let mut first = IptablesState::new();
    assert_eq!(first.parse("*filter\n:INPUT ACCEPT [10:100]\nCOMMIT\n"), Ok(()));
    let mut second = IptablesState::new();
    assert_eq!(second.parse("*filter\n:INPUT DROP [12:130]\nCOMMIT\n"), Ok(()));
    let a = metrics.update(&first);
    assert_eq!(a[1], sample(Metric::ChainBytesTotal, &["filter", "INPUT"], 100));
    assert_eq!(a[2], sample(Metric::ChainPacketsTotal, &["filter", "INPUT"], 10));
    let b = metrics.update(&second);
    assert_eq!(b[1], sample(Metric::ChainBytesTotal, &["filter", "INPUT"], 30));
    assert_eq!(b[2], sample(Metric::ChainPacketsTotal, &["filter", "INPUT"], 2));
}

#[test]
fn successive_scrapes_add_up_per_key() {
    let mut metrics = TargetMetricsIptables::new();
    let key = labels(&["filter", "INPUT"]);
    let mut exported = 0u64;
    let mut totals = Vec::new();
    let mut increments = Vec::new();
    for (input, output) in [(100u64, 5u64), (250, 7), (30, 6), (30, 6)] {
        let text = format!(
            "*filter\n:INPUT ACCEPT [1:{}]\n:OUTPUT DROP [1:{}]\nCOMMIT\n",
            input, output
        );
        let mut state = IptablesState::new();
        assert_eq!(state.parse(&text), Ok(()));
        let out = metrics.update(&state);
        let mine: Vec<u64> = out
            .iter()
            .filter(|s| s.metric == Metric::ChainBytesTotal && s.labels == key)
            .map(|s| s.value)
            .collect();
        assert_eq!(mine.len(), 1);
        increments.push(mine[0]);
        let next = exported + mine[0];
        assert!(next >= exported);
        exported = next;
        totals.push(exported);
    }
    assert_eq!(increments, vec![100, 150, 30, 0]);
    assert_eq!(totals, vec![100, 250, 280, 280]);
}
