use rustyrouter::netfilter;
use rustyrouter::netfilter::{ChainKind, Expr, HookPoint, Verdict};
use rustyrouter::network;
use rustyrouter::network::CidrError;

fn octets(rule: &[Expr]) -> Vec<u8> {
    match &rule[1] {
        Expr::MatchOctets(v) => v.clone(),
        _ => panic!("expected a comparison"),
    }
}

#[test]
fn interface_names_are_padded() {
    assert_eq!(netfilter::pad_interface_name("lo"), *b"lo\0\0\0\0\0\0\0\0\0\0\0\0\0\0");
    assert_eq!(netfilter::pad_interface_name(""), [0u8; 16]);
    assert_eq!(netfilter::pad_interface_name("0123456789abcdef"), *b"0123456789abcdef");
    assert_eq!(netfilter::pad_interface_name("0123456789abcdefg"), *b"0123456789abcdef");
}

#[test]
fn firewall_rules() {
    let plan = netfilter::configure_firewall("wan0", "lan0");
    assert_eq!(plan.table, "rustyrouter");

    assert_eq!(plan.nat.name, "nat_postrouting");
    assert_eq!(plan.nat.hook, HookPoint::PostRouting);
    assert_eq!(plan.nat.priority, 100);
    assert_eq!(plan.nat.kind, ChainKind::Nat);
    assert_eq!(plan.nat.policy, Verdict::Accept);
    assert_eq!(plan.nat.rules.len(), 1);
    let masquerade = &plan.nat.rules[0];
    assert_eq!(masquerade.len(), 3);
    assert!(matches!(masquerade[0], Expr::LoadOutputInterface));
    assert_eq!(octets(masquerade), b"wan0\0\0\0\0\0\0\0\0\0\0\0\0".to_vec());
    assert!(matches!(masquerade[2], Expr::Masquerade));

    assert_eq!(plan.filter.name, "filter_input");
    assert_eq!(plan.filter.hook, HookPoint::Input);
    assert_eq!(plan.filter.priority, 0);
    assert_eq!(plan.filter.kind, ChainKind::Filter);
    assert_eq!(plan.filter.policy, Verdict::Drop);
    let rules = &plan.filter.rules;
    assert_eq!(rules.len(), 4);
    assert!(rules[..3].iter().all(|r| r.len() == 3 && matches!(r[2], Expr::Accept)));
    assert!(matches!(rules[0][0], Expr::LoadInputInterface));
    assert_eq!(octets(&rules[0]), b"lo\0\0\0\0\0\0\0\0\0\0\0\0\0\0".to_vec());
    assert!(matches!(rules[1][0], Expr::LoadInputInterface));
    assert_eq!(octets(&rules[1]), b"lan0\0\0\0\0\0\0\0\0\0\0\0\0".to_vec());
    assert!(matches!(rules[2][0], Expr::LoadProtocol));
    assert_eq!(octets(&rules[2]), vec![1]);
    assert_eq!(rules[3].len(), 4);
    assert!(matches!(rules[3][0], Expr::LoadTrackState));
    assert!(matches!(rules[3][1], Expr::MaskNumber(6)));
    assert!(matches!(rules[3][2], Expr::MatchNonZero));
    assert!(matches!(rules[3][3], Expr::Accept));
}

/// Whether the rule passes its verdict on a packet with this state.
fn lets_state_in(rule: &[Expr], state: u32) -> bool {
    let mut number = 0;
    for expr in rule {
        match expr {
            Expr::LoadTrackState => number = state,
            Expr::MaskNumber(mask) => number &= mask,
            Expr::MatchNonZero => {
                if number == 0 {
                    return false;
                }
            }
            Expr::Accept => return true,
            _ => panic!("unexpected instruction"),
        }
    }
    false
}

#[test]
fn answers_are_let_in_and_unasked_packets_are_not() {
    let plan = netfilter::configure_firewall("wan0", "lan0");
    let rule = &plan.filter.rules[3];
    let (invalid, new, untracked) = (1, 8, 64);
    assert!(lets_state_in(rule, netfilter::STATE_ESTABLISHED));
    assert!(lets_state_in(rule, netfilter::STATE_RELATED));
    assert!(lets_state_in(rule, netfilter::STATE_ESTABLISHED | netfilter::STATE_RELATED));
    assert!(lets_state_in(rule, netfilter::STATE_RELATED | new));
    assert!(!lets_state_in(rule, 0));
    assert!(!lets_state_in(rule, invalid));
    assert!(!lets_state_in(rule, new));
    assert!(!lets_state_in(rule, untracked));
}

#[test]
fn interfaces_in_order() {
    let steps = network::configure_network("wan0", "lan0", "10.0.0.1/8");
    let seen: Vec<(String, Option<String>, bool)> =
        steps.into_iter().map(|s| (s.name, s.cidr, s.required)).collect();
    assert_eq!(
        seen,
        vec![
            ("lo".to_string(), None, false),
            ("lan0".to_string(), Some("10.0.0.1/8".to_string()), true),
            ("wan0".to_string(), None, true),
        ]
    );
}

#[test]
fn addresses_with_prefix_lengths() {
    let split = |s: &str| network::split_cidr(s).map(|c| (c.ip, c.prefix_len));
    assert_eq!(split("10.0.0.1/8"), Ok(("10.0.0.1".to_string(), 8)));
    assert_eq!(split("10.0.0.1"), Ok(("10.0.0.1".to_string(), 24)));
    assert_eq!(split("fe80::1/64/9"), Ok(("fe80::1".to_string(), 64)));
    assert_eq!(split("x/+7"), Ok(("x".to_string(), 7)));
    assert_eq!(split("x/"), Err(CidrError::InvalidPrefix));
    assert_eq!(split("x/256"), Err(CidrError::InvalidPrefix));
    assert_eq!(split("x/-1"), Err(CidrError::InvalidPrefix));
    assert_eq!(split("x/ 8"), Err(CidrError::InvalidPrefix));
}

#[test]
fn octets_read_as_the_standard_parser_reads_them() {
    let texts = [
        "", "+", "-", "0", "00", "7", "+7", "++7", "255", "256", "0000255", "1000", "12a", "a12",
        "٣", " 1", "1 ", "99999999999999999999", "9999x", "-0",
    ];
    for text in texts {
        assert_eq!(network::parse_octet(text), text.parse::<u8>().ok(), "{:?}", text);
    }
    for n in 0..300u32 {
        let text = format!("{}", n);
        assert_eq!(network::parse_octet(&text), text.parse::<u8>().ok());
    }
}

#[test]
fn names_stay_apart_in_their_field() {
    let names = ["", "e", "eth", "eth0", "eth1", "eth10", "0123456789abcde", "0123456789abcdef"];
    for a in names {
        for b in names {
            assert_eq!(
                netfilter::pad_interface_name(a) == netfilter::pad_interface_name(b),
                a == b
            );
        }
    }
}
