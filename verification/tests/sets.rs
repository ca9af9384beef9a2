use firewall_metrics::error::{MalformedKind, ParseError};
use firewall_metrics::ipset::{
    calculate_usable_ip_count, count_entry_ips, get_prefix_length, IpsetState,
};

const LISTING: &str = "Name: blocklist\nType: hash:net\nRevision: 6\nHeader: family inet hashsize 1024 maxelem 65536\nSize in memory: 504\nReferences: 1\nNumber of entries: 3\nMembers:\n10.0.0.0/8\n192.168.1.7\n172.16.0.0/30\n\nName: allow\nType: hash:ip\nMembers:\n1.1.1.1\n8.8.8.8 timeout 30\n9.9.9.0/24 timeout 5\n";

fn state_of(text: &str) -> IpsetState {
    let mut state = IpsetState::new("^$").unwrap();
    assert_eq!(state.parse(text), Ok(()));
    state
}

#[test]
fn two_sets_with_three_members_each() {
    let state = state_of(LISTING);
    let lists = state.lists();
    assert_eq!(lists.len(), 2);
    assert_eq!(lists[0].name(), "blocklist");
    assert_eq!(
        lists[0].entries(),
        &vec!["10.0.0.0/8".to_string(), "192.168.1.7".to_string(), "172.16.0.0/30".to_string()]
    );
    assert_eq!(lists[1].name(), "allow");
    assert_eq!(
        lists[1].entries(),
        &vec![
            "1.1.1.1".to_string(),
            "8.8.8.8 timeout 30".to_string(),
            "9.9.9.0/24 timeout 5".to_string()
        ]
    );
}

#[test]
fn address_count_of_a_set_is_the_sum_over_its_members() {
    let state = state_of(LISTING);
    assert_eq!(state.lists()[0].num_ips(), 16777214 + 1 + 2);
    assert_eq!(state.lists()[1].num_ips(), 1 + 1 + 254);
    let mixed = state_of("Name: s\nMembers:\n192.168.1.0/24\n10.0.0.0/31\n10.0.0.5\n");
    assert_eq!(mixed.lists()[0].num_ips(), 257);
    let empty = state_of("Name: none\nMembers:\n");
    assert_eq!(empty.lists()[0].num_ips(), 0);
    assert!(empty.lists()[0].entries().is_empty());
}

#[test]
fn address_count_of_a_set_stops_at_the_largest_value() {
    let one = state_of("Name: all\nMembers:\n0.0.0.0/0\n");
    assert_eq!(one.lists()[0].num_ips(), 4294967294);
    let two = state_of("Name: all\nMembers:\n0.0.0.0/0\n10.0.0.1\n");
    assert_eq!(two.lists()[0].num_ips(), u32::MAX);
    let three = state_of("Name: all\nMembers:\n0.0.0.0/0\n0.0.0.0/0\n10.0.0.0/24\n\nName: next\nMembers:\n1.1.1.1\n");
    assert_eq!(three.lists()[0].num_ips(), u32::MAX);
    assert_eq!(three.lists()[1].num_ips(), 1);
}

#[test]
fn cidr_scenarios() {
    assert_eq!(count_entry_ips("192.168.1.0/24"), 254);
    assert_eq!(count_entry_ips("10.0.0.5/32"), 1);
    assert_eq!(count_entry_ips("10.0.0.0/31"), 2);
    assert_eq!(count_entry_ips("not-an-ip/24"), 1);
}

#[test]
fn usable_counts_by_prefix_length() {
    assert_eq!(calculate_usable_ip_count(32), 1);
    assert_eq!(calculate_usable_ip_count(31), 2);
    assert_eq!(calculate_usable_ip_count(30), 2);
    assert_eq!(calculate_usable_ip_count(29), 6);
    assert_eq!(calculate_usable_ip_count(24), 254);
    assert_eq!(calculate_usable_ip_count(16), 65534);
    assert_eq!(calculate_usable_ip_count(8), 16777214);
    assert_eq!(calculate_usable_ip_count(1), 2147483646);
    assert_eq!(calculate_usable_ip_count(0), 4294967294);
}

#[test]
fn prefix_lengths() {
    assert_eq!(get_prefix_length("192.168.1.0/24"), Some(24));
    assert_eq!(get_prefix_length("0.0.0.0/0"), Some(0));
    assert_eq!(get_prefix_length("255.255.255.255/32"), Some(32));
    assert_eq!(get_prefix_length("10.0.0.0/+8"), Some(8));
    assert_eq!(get_prefix_length("10.0.0.0/008"), Some(8));
    for entry in [
        "",
        "/",
        "10.0.0.0",
        "10.0.0.0/",
        "10.0.0.0/33",
        "10.0.0.0/256",
        "10.0.0.0/-1",
        "10.0.0.0/+",
        "10.0.0.0/8/8",
        "10.0.0.0//8",
        "10.0.0/8",
        "10.0.0.0.0/8",
        "10.0.0.256/8",
        "10.0.0.01/8",
        "10.0.0.1000/8",
        "10..0.0/8",
        ".10.0.0/8",
        "10.0.0./8",
        "a.b.c.d/8",
        "10.0.0.0/8 ",
        " 10.0.0.0/8",
        "10.0.0.0/99999999999999999999999",
        "::1/64",
    ] {
        assert_eq!(get_prefix_length(entry), None, "{}", entry);
    }
}

#[test]
fn only_the_first_field_of_a_member_counts() {
    assert_eq!(count_entry_ips("10.0.0.0/24 timeout 100"), 254);
    assert_eq!(count_entry_ips("10.0.0.1 timeout 100"), 1);
    assert_eq!(count_entry_ips(" 10.0.0.0/24"), 1);
    assert_eq!(count_entry_ips(""), 1);
    assert_eq!(count_entry_ips("10.0.0.0/0"), 4294967294);
}

#[test]
fn set_name_without_separator_is_malformed_input() {
    let mut state = IpsetState::new("^$").unwrap();
    assert_eq!(
        state.parse("Name: fine\nMembers:\n1.2.3.4\n\nName:broken\n"),
        Err(ParseError::MalformedInput { line: 5, kind: MalformedKind::MalformedSetName })
    );
    assert!(state.lists().is_empty());
}

#[test]
fn set_name_is_what_follows_the_first_colon_and_space() {
    let state = state_of("Name: a: b\nName:x: y\nName: \n");
    let names: Vec<&str> = state.lists().iter().map(|l| l.name()).collect();
    assert_eq!(names, vec!["a: b", "y", ""]);
}

#[test]
fn members_before_any_set_are_discarded() {
    let state = state_of("Members:\n1.2.3.4\n\nName: late\nMembers:\n5.6.7.8\n");
    assert_eq!(state.lists().len(), 1);
    assert_eq!(state.lists()[0].entries(), &vec!["5.6.7.8".to_string()]);
}

#[test]
fn lines_outside_members_are_passed_over() {
    let state = state_of("stray\nName: s\nType: hash:ip\n1.2.3.4\nMembers:\n5.6.7.8\n\n9.9.9.9\n");
    assert_eq!(state.lists().len(), 1);
    assert_eq!(state.lists()[0].entries(), &vec!["5.6.7.8".to_string()]);
}

#[test]
fn a_set_started_inside_members_takes_the_following_lines() {
    let state = state_of("Name: a\nMembers:\n1.1.1.1\nName: b\n2.2.2.2\n");
    assert_eq!(state.lists()[0].entries(), &vec!["1.1.1.1".to_string()]);
    assert_eq!(state.lists()[1].entries(), &vec!["2.2.2.2".to_string()]);
}

#[test]
fn empty_listing_has_no_sets() {
    assert!(state_of("").lists().is_empty());
}

#[test]
fn invalid_pattern_is_refused() {
    assert!(IpsetState::new("(").is_err());
    assert!(IpsetState::new("").is_ok());
}

#[test]
fn filter_drops_the_sets_whose_name_matches() {
    let mut state = IpsetState::new("^tmp_|_old$").unwrap();
    assert_eq!(
        state.parse("Name: tmp_a\n\nName: keep\n\nName: b_old\n\nName: also_tmp_keep\n\nName: tmp_\n"),
        Ok(())
    );
    state.filter_by_regex();
    let names: Vec<&str> = state.lists().iter().map(|l| l.name()).collect();
    assert_eq!(names, vec!["keep", "also_tmp_keep"]);
    state.filter_by_regex();
    assert_eq!(state.lists().len(), 2);
}

#[test]
fn filter_with_a_pattern_that_matches_nothing_keeps_all() {
    let mut state = state_of(LISTING);
    state = {
        state.filter_by_regex();
        state
    };
    assert_eq!(state.lists().len(), 2);
    assert_eq!(state.lists()[0].entries().len(), 3);
}

#[test]
fn filter_with_a_pattern_that_matches_everything_drops_all() {
    let mut state = IpsetState::new("").unwrap();
    assert_eq!(state.parse(LISTING), Ok(()));
    state.filter_by_regex();
    assert!(state.lists().is_empty());
}

#[test]
fn drop_flagged_goes_by_index() {
    let mut state = state_of("Name: a\n\nName: b\n\nName: c\n");
    state.drop_flagged(&vec![false, true]);
    let names: Vec<&str> = state.lists().iter().map(|l| l.name()).collect();
    assert_eq!(names, vec!["a", "c"]);
    state.drop_flagged(&vec![true, true, true, true]);
    assert!(state.lists().is_empty());
}

#[test]
fn state_keeps_its_pattern() {
    let state = IpsetState::new("^tmp_|_old$").unwrap();
    assert_eq!(state.ignore_pattern(), "^tmp_|_old$");
    assert!(state.lists().is_empty());
}
