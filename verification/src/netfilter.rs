//! The packet filter: what is let in, and what goes out under the router's own
//! address.
//!
//! The rules are small programs, as the kernel's `nf_tables` runs them: an
//! instruction loads some property of a packet, the next ones test what was
//! loaded, and the last passes a verdict.
//!
//! The kernel hands the state of a connection over as a number of 32 bits in the
//! byte order of the machine. The rules hold it, and what it is tested against,
//! as a number; whoever hands the rules to the kernel writes such a number in
//! the byte order of the machine.

use vstd::prelude::*;

verus! {

/// The length of the field for an interface's name.
pub const INTERFACE_NAME_LEN: usize = 16;

/// The mark of a packet of a connection on which packets went both ways.
pub const STATE_ESTABLISHED: u32 = 2;

/// The mark of a packet that starts a connection which another one expects.
pub const STATE_RELATED: u32 = 4;

/// The name of the table that holds the rules.
pub open spec fn table_name() -> Seq<char> {
    "rustyrouter"@
}

/// A name as it stands in the field for an interface's name: cut to its length
/// and filled up with zeros.
pub open spec fn padded(name: Seq<u8>) -> Seq<u8> {
    Seq::new(
        INTERFACE_NAME_LEN as nat,
        |i: int|
            if i < name.len() {
                name[i]
            } else {
                0
            },
    )
}

/// The field for the name of an interface.
pub open spec fn interface_field(name: Seq<char>) -> Seq<u8> {
    padded(vstd::utf8::encode_utf8(name))
}

/// A name as it stands in the field for an interface's name.
pub fn pad_interface_name(name: &str) -> (r: [u8; 16])
    ensures
        r@ == interface_field(name@),
{
    let octets = name.as_bytes();
    let mut out: [u8; 16] = [0u8; 16];
    let mut i: usize = 0;
    while i < 16 && i < octets.len()
        invariant
            i <= 16,
            i <= octets.len(),
            out@.len() == 16,
            forall|k: int| 0 <= k < i ==> #[trigger] out@[k] == octets@[k],
            forall|k: int| i <= k < 16 ==> #[trigger] out@[k] == 0,
        decreases 16 - i,
    {
        out[i] = octets[i];
        i += 1;
    }
    assert(out@ =~= padded(octets@));
    out
}

/// Names that fit their field and hold no zero are told apart by it.
pub proof fn law_padding_keeps_names_apart(a: Seq<u8>, b: Seq<u8>)
    requires
        a.len() <= INTERFACE_NAME_LEN,
        b.len() <= INTERFACE_NAME_LEN,
        !a.contains(0),
        !b.contains(0),
        padded(a) == padded(b),
    ensures
        a == b,
{
    let (pa, pb) = (padded(a), padded(b));
    assert forall|i: int| 0 <= i < INTERFACE_NAME_LEN implies #[trigger] pa[i] == (if i < a.len() {
        a[i]
    } else {
        0
    }) by {}
    assert forall|i: int| 0 <= i < INTERFACE_NAME_LEN implies #[trigger] pb[i] == (if i < b.len() {
        b[i]
    } else {
        0
    }) by {}
    if a.len() < b.len() {
        let k = a.len() as int;
        assert(pa[k] == pb[k]);
        assert(b[k] == 0);
        assert(b.contains(0));
    } else if b.len() < a.len() {
        let k = b.len() as int;
        assert(pa[k] == pb[k]);
        assert(a[k] == 0);
        assert(a.contains(0));
    }
    assert forall|i: int| 0 <= i < a.len() implies a[i] == b[i] by {
        assert(pa[i] == pb[i]);
    }
    assert(a =~= b);
}

/// An instruction of a rule.
pub enum Expr {
    /// Loads the name of the interface that the packet goes out by.
    LoadOutputInterface,
    /// Loads the name of the interface that the packet came in by.
    LoadInputInterface,
    /// Loads the number of the transport protocol.
    LoadProtocol,
    /// Loads the state of the connection that the packet belongs to: a number
    /// with a bit for each mark.
    LoadTrackState,
    /// Ends the rule unless what was loaded is this.
    MatchOctets(Vec<u8>),
    /// Keeps of the number that was loaded only the bits that are set in this
    /// one.
    MaskNumber(u32),
    /// Ends the rule if the number that was loaded, or what was kept of it, is
    /// zero.
    MatchNonZero,
    /// Sends the packet out under the router's own address.
    Masquerade,
    /// Lets the packet in.
    Accept,
}

/// The content of an `Expr`.
pub enum ExprView {
    LoadOutputInterface,
    LoadInputInterface,
    LoadProtocol,
    LoadTrackState,
    MatchOctets(Seq<u8>),
    MaskNumber(u32),
    MatchNonZero,
    Masquerade,
    Accept,
}

impl DeepView for Expr {
    type V = ExprView;

    open spec fn deep_view(&self) -> ExprView {
        match self {
            Expr::LoadOutputInterface => ExprView::LoadOutputInterface,
            Expr::LoadInputInterface => ExprView::LoadInputInterface,
            Expr::LoadProtocol => ExprView::LoadProtocol,
            Expr::LoadTrackState => ExprView::LoadTrackState,
            Expr::MatchOctets(octets) => ExprView::MatchOctets(octets@),
            Expr::MaskNumber(mask) => ExprView::MaskNumber(*mask),
            Expr::MatchNonZero => ExprView::MatchNonZero,
            Expr::Masquerade => ExprView::Masquerade,
            Expr::Accept => ExprView::Accept,
        }
    }
}

/// Where in a packet's way a chain of rules is run.
#[derive(Clone, Copy, Debug, PartialEq, Eq, Structural)]
pub enum HookPoint {
    PostRouting,
    Input,
}

/// What a chain of rules is for.
#[derive(Clone, Copy, Debug, PartialEq, Eq, Structural)]
pub enum ChainKind {
    Nat,
    Filter,
}

/// What becomes of a packet.
#[derive(Clone, Copy, Debug, PartialEq, Eq, Structural)]
pub enum Verdict {
    Accept,
    Drop,
    Masquerade,
}

/// A chain of rules.
pub struct ChainPlan {
    pub name: String,
    pub hook: HookPoint,
    pub priority: i32,
    pub kind: ChainKind,
    /// What becomes of a packet on which no rule passes a verdict.
    pub policy: Verdict,
    pub rules: Vec<Vec<Expr>>,
}

/// The content of a `ChainPlan`.
pub struct ChainView {
    pub name: Seq<char>,
    pub hook: HookPoint,
    pub priority: i32,
    pub kind: ChainKind,
    pub policy: Verdict,
    pub rules: Seq<Seq<ExprView>>,
}

impl View for ChainPlan {
    type V = ChainView;

    open spec fn view(&self) -> ChainView {
        ChainView {
            name: self.name@,
            hook: self.hook,
            priority: self.priority,
            kind: self.kind,
            policy: self.policy,
            rules: self.rules.deep_view(),
        }
    }
}

/// The rules of the router. The table of an earlier run is deleted before they
/// are put in place: first the table, then the chains, then the rules of each.
pub struct FirewallPlan {
    pub table: String,
    pub nat: ChainPlan,
    pub filter: ChainPlan,
}

/// A rule about packets that go out by an interface: they go under the router's
/// own address.
pub open spec fn masquerade_rule(interface: Seq<char>) -> Seq<ExprView> {
    seq![
        ExprView::LoadOutputInterface,
        ExprView::MatchOctets(interface_field(interface)),
        ExprView::Masquerade,
    ]
}

/// A rule about packets that came in by an interface: they are let in.
pub open spec fn interface_rule(interface: Seq<char>) -> Seq<ExprView> {
    seq![
        ExprView::LoadInputInterface,
        ExprView::MatchOctets(interface_field(interface)),
        ExprView::Accept,
    ]
}

/// A rule about ICMP: it is let in, so that the router answers to a ping.
pub open spec fn icmp_rule() -> Seq<ExprView> {
    seq![ExprView::LoadProtocol, ExprView::MatchOctets(seq![1u8]), ExprView::Accept]
}

/// A rule about packets of established connections and about packets related to
/// one: they are let in.
pub open spec fn tracked_rule() -> Seq<ExprView> {
    seq![
        ExprView::LoadTrackState,
        ExprView::MaskNumber(STATE_ESTABLISHED | STATE_RELATED),
        ExprView::MatchNonZero,
        ExprView::Accept,
    ]
}

/// The chain that gives packets to the outer network the router's address.
pub open spec fn nat_chain(wan: Seq<char>) -> ChainView {
    ChainView {
        name: "nat_postrouting"@,
        hook: HookPoint::PostRouting,
        priority: 100,
        kind: ChainKind::Nat,
        policy: Verdict::Accept,
        rules: seq![masquerade_rule(wan)],
    }
}

/// The chain that decides what is let in.
pub open spec fn filter_chain(lan: Seq<char>) -> ChainView {
    ChainView {
        name: "filter_input"@,
        hook: HookPoint::Input,
        priority: 0,
        kind: ChainKind::Filter,
        policy: Verdict::Drop,
        rules: seq![interface_rule("lo"@), interface_rule(lan), icmp_rule(), tracked_rule()],
    }
}

/// A rule that tests a name that was loaded.
fn name_rule(load: Expr, interface: &str, verdict: Expr) -> (r: Vec<Expr>)
    ensures
        r.deep_view() == seq![
            load.deep_view(),
            ExprView::MatchOctets(interface_field(interface@)),
            verdict.deep_view(),
        ],
{
    let field = pad_interface_name(interface);
    let mut octets: Vec<u8> = Vec::new();
    octets.extend_from_slice(field.as_slice());
    assert(octets@ =~= field@);
    let r = vec![load, Expr::MatchOctets(octets), verdict];
    assert(r.deep_view() =~= seq![
        load.deep_view(),
        ExprView::MatchOctets(interface_field(interface@)),
        verdict.deep_view(),
    ]);
    r
}

/// The rules of the router for its two interfaces.
pub fn configure_firewall(wan_iface: &str, lan_iface: &str) -> (r: FirewallPlan)
    ensures
        r.table@ == table_name(),
        r.nat@ == nat_chain(wan_iface@),
        r.filter@ == filter_chain(lan_iface@),
{
    let masquerade = name_rule(Expr::LoadOutputInterface, wan_iface, Expr::Masquerade);
    let loopback = name_rule(Expr::LoadInputInterface, "lo", Expr::Accept);
    let inner = name_rule(Expr::LoadInputInterface, lan_iface, Expr::Accept);
    let icmp_number: Vec<u8> = vec![1u8];
    assert(icmp_number@ =~= seq![1u8]);
    let icmp = vec![Expr::LoadProtocol, Expr::MatchOctets(icmp_number), Expr::Accept];
    assert(icmp.deep_view() =~= icmp_rule());
    let under_way = vec![
        Expr::LoadTrackState,
        Expr::MaskNumber(STATE_ESTABLISHED | STATE_RELATED),
        Expr::MatchNonZero,
        Expr::Accept,
    ];
    assert(under_way.deep_view() =~= tracked_rule());
    let nat_rules = vec![masquerade];
    assert(nat_rules.deep_view() =~= nat_chain(wan_iface@).rules);
    let filter_rules = vec![loopback, inner, icmp, under_way];
    assert(filter_rules.deep_view() =~= filter_chain(lan_iface@).rules);
    FirewallPlan {
        table: "rustyrouter".to_owned(),
        nat: ChainPlan {
            name: "nat_postrouting".to_owned(),
            hook: HookPoint::PostRouting,
            priority: 100,
            kind: ChainKind::Nat,
            policy: Verdict::Accept,
            rules: nat_rules,
        },
        filter: ChainPlan {
            name: "filter_input".to_owned(),
            hook: HookPoint::Input,
            priority: 0,
            kind: ChainKind::Filter,
            policy: Verdict::Drop,
            rules: filter_rules,
        },
    }
}

/// What the rules look at in a packet.
pub struct PacketProperties {
    pub input_interface: Seq<u8>,
    pub output_interface: Seq<u8>,
    pub protocol: Seq<u8>,
    pub track_state: u32,
}

/// What was loaded last.
pub enum Loaded {
    Nothing,
    Octets(Seq<u8>),
    Number(u32),
}

/// The verdict that a rule passes on a packet, if any, with `loaded` for what
/// was loaded last.
pub open spec fn rule_verdict(
    rule: Seq<ExprView>,
    packet: PacketProperties,
    loaded: Loaded,
) -> Option<Verdict>
    decreases rule.len(),
{
    if rule.len() == 0 {
        None
    } else {
        let rest = rule.skip(1);
        match rule[0] {
            ExprView::LoadOutputInterface => rule_verdict(
                rest,
                packet,
                Loaded::Octets(packet.output_interface),
            ),
            ExprView::LoadInputInterface => rule_verdict(
                rest,
                packet,
                Loaded::Octets(packet.input_interface),
            ),
            ExprView::LoadProtocol => rule_verdict(rest, packet, Loaded::Octets(packet.protocol)),
            ExprView::LoadTrackState => rule_verdict(
                rest,
                packet,
                Loaded::Number(packet.track_state),
            ),
            ExprView::MatchOctets(octets) => if loaded == Loaded::Octets(octets) {
                rule_verdict(rest, packet, loaded)
            } else {
                None
            },
            ExprView::MaskNumber(mask) => match loaded {
                Loaded::Number(n) => rule_verdict(rest, packet, Loaded::Number(n & mask)),
                _ => None,
            },
            ExprView::MatchNonZero => match loaded {
                Loaded::Number(n) => if n != 0 {
                    rule_verdict(rest, packet, loaded)
                } else {
                    None
                },
                _ => None,
            },
            ExprView::Masquerade => Some(Verdict::Masquerade),
            ExprView::Accept => Some(Verdict::Accept),
        }
    }
}

/// The verdict of a chain: that of the first rule that passes one, or else its
/// policy.
pub open spec fn chain_verdict(
    rules: Seq<Seq<ExprView>>,
    policy: Verdict,
    packet: PacketProperties,
) -> Verdict
    decreases rules.len(),
{
    if rules.len() == 0 {
        policy
    } else {
        match rule_verdict(rules[0], packet, Loaded::Nothing) {
            Some(verdict) => verdict,
            None => chain_verdict(rules.skip(1), policy, packet),
        }
    }
}

proof fn lemma_tested_rule(
    load: ExprView,
    octets: Seq<u8>,
    verdict: ExprView,
    packet: PacketProperties,
    loaded: Seq<u8>,
)
    requires
        (match load {
            ExprView::LoadInputInterface => loaded == packet.input_interface,
            ExprView::LoadOutputInterface => loaded == packet.output_interface,
            ExprView::LoadProtocol => loaded == packet.protocol,
            _ => false,
        }),
        verdict is Accept || verdict is Masquerade,
    ensures
        rule_verdict(seq![load, ExprView::MatchOctets(octets), verdict], packet, Loaded::Nothing)
            == (if loaded == octets {
            Some(
                if verdict is Accept {
                    Verdict::Accept
                } else {
                    Verdict::Masquerade
                },
            )
        } else {
            None
        }),
{
    let rule = seq![load, ExprView::MatchOctets(octets), verdict];
    let test = rule.skip(1);
    let held = Loaded::Octets(loaded);
    assert(test =~= seq![ExprView::MatchOctets(octets), verdict]);
    assert(test.skip(1) =~= seq![verdict]);
    assert(rule_verdict(test.skip(1), packet, held) == Some(
        if verdict is Accept {
            Verdict::Accept
        } else {
            Verdict::Masquerade
        },
    ));
    assert(rule_verdict(rule, packet, Loaded::Nothing) == rule_verdict(test, packet, held));
}

proof fn lemma_tracked_rule(packet: PacketProperties)
    ensures
        rule_verdict(tracked_rule(), packet, Loaded::Nothing) == (if packet.track_state & (
        STATE_ESTABLISHED | STATE_RELATED) != 0 {
            Some(Verdict::Accept)
        } else {
            None
        }),
{
    let rule = tracked_rule();
    let mask = rule.skip(1);
    let test = mask.skip(1);
    let verdict = test.skip(1);
    let kept = Loaded::Number(packet.track_state & (STATE_ESTABLISHED | STATE_RELATED));
    assert(mask[0] == rule[1] && test[0] == rule[2] && verdict[0] == rule[3]);
    assert(rule_verdict(verdict, packet, kept) == Some(Verdict::Accept));
    assert(rule_verdict(mask, packet, Loaded::Number(packet.track_state)) == rule_verdict(
        test,
        packet,
        kept,
    ));
}

/// What is let in, and nothing else: what came in by the loopback or the inner
/// interface, ICMP from anywhere, and what the connection tracking marks as
/// established or as related, with or without other marks. So what comes in by
/// the outer interface unasked is dropped, and answers to what went out are not.
pub proof fn law_input_is_dropped_unless_allowed(lan: Seq<char>, packet: PacketProperties)
    ensures
        ({
            let chain = filter_chain(lan);
            let allowed = packet.input_interface == interface_field("lo"@) || packet.input_interface
                == interface_field(lan) || packet.protocol == seq![1u8] || packet.track_state & (
            STATE_ESTABLISHED | STATE_RELATED) != 0;
            chain_verdict(chain.rules, chain.policy, packet) == if allowed {
                Verdict::Accept
            } else {
                Verdict::Drop
            }
        }),
{
    let rules = filter_chain(lan).rules;
    let policy = filter_chain(lan).policy;
    lemma_tested_rule(
        ExprView::LoadInputInterface,
        interface_field("lo"@),
        ExprView::Accept,
        packet,
        packet.input_interface,
    );
    lemma_tested_rule(
        ExprView::LoadInputInterface,
        interface_field(lan),
        ExprView::Accept,
        packet,
        packet.input_interface,
    );
    lemma_tested_rule(
        ExprView::LoadProtocol,
        seq![1u8],
        ExprView::Accept,
        packet,
        packet.protocol,
    );
    lemma_tracked_rule(packet);
    let after_one = rules.skip(1);
    let after_two = after_one.skip(1);
    let after_three = after_two.skip(1);
    let after_four = after_three.skip(1);
    assert(after_one[0] == rules[1] && after_two[0] == rules[2] && after_three[0] == rules[3]);
    assert(after_four.len() == 0);
    assert(chain_verdict(after_four, policy, packet) == policy);
    assert(rules[3] == tracked_rule());
    assert(chain_verdict(after_three, policy, packet) == if packet.track_state & (STATE_ESTABLISHED
        | STATE_RELATED) != 0 {
        Verdict::Accept
    } else {
        Verdict::Drop
    });
    assert(rules[2] == icmp_rule());
    assert(chain_verdict(after_two, policy, packet) == if packet.protocol == seq![1u8] {
        Verdict::Accept
    } else {
        chain_verdict(after_three, policy, packet)
    });
    assert(rules[1] == interface_rule(lan));
    assert(chain_verdict(after_one, policy, packet) == if packet.input_interface
        == interface_field(lan) {
        Verdict::Accept
    } else {
        chain_verdict(after_two, policy, packet)
    });
    assert(rules[0] == interface_rule("lo"@));
    assert(chain_verdict(rules, policy, packet) == if packet.input_interface == interface_field(
        "lo"@,
    ) {
        Verdict::Accept
    } else {
        chain_verdict(after_one, policy, packet)
    });
}

/// What goes out by the outer interface goes under the router's own address;
/// all else goes as it is.
pub proof fn law_outgoing_is_masqueraded(wan: Seq<char>, packet: PacketProperties)
    ensures
        ({
            let chain = nat_chain(wan);
            chain_verdict(chain.rules, chain.policy, packet) == if packet.output_interface
                == interface_field(wan) {
                Verdict::Masquerade
            } else {
                Verdict::Accept
            }
        }),
{
    let rules = nat_chain(wan).rules;
    let policy = nat_chain(wan).policy;
    lemma_tested_rule(
        ExprView::LoadOutputInterface,
        interface_field(wan),
        ExprView::Masquerade,
        packet,
        packet.output_interface,
    );
    assert(rules[0] == masquerade_rule(wan));
    assert(chain_verdict(rules.skip(1), policy, packet) == policy);
}

/// The field for the name of an interface has sixteen octets: those of the name as
/// far as they fit, then zeros.
pub proof fn law_name_stands_in_its_field(name: Seq<char>)
    ensures
        ({
            let octets = vstd::utf8::encode_utf8(name);
            let field = interface_field(name);
            &&& field.len() == 16
            &&& forall|i: int| 0 <= i < 16 && i < octets.len() ==> #[trigger] field[i] == octets[i]
            &&& forall|i: int| octets.len() <= i < 16 ==> #[trigger] field[i] == 0
        }),
{
}

/// Where the two chains of rules are run: the one for addresses behind the routing,
/// as a translation that changes nothing by itself, and the one for what is let in
/// on the way to the router, as a filter that drops what no rule lets in.
pub proof fn law_chains_are_run_in_place(wan: Seq<char>, lan: Seq<char>)
    ensures
        ({
            let out = nat_chain(wan);
            &&& out.name == "nat_postrouting"@
            &&& out.hook is PostRouting && out.kind is Nat && out.priority == 100
            &&& out.policy is Accept && out.rules.len() == 1
        }),
        ({
            let filter = filter_chain(lan);
            &&& filter.name == "filter_input"@
            &&& filter.hook is Input && filter.kind is Filter && filter.priority == 0
            &&& filter.policy is Drop && filter.rules.len() == 4
        }),
        table_name() == "rustyrouter"@,
{
}

/// What each rule is made of. A packet that goes out by the outer interface is
/// masqueraded; what comes in by the loopback or the inner interface, ICMP, which is
/// the protocol of number one, and what has one of the second and the third mark of
/// the connection tracking, is accepted. Each rule tests what it has loaded before
/// it passes a verdict.
pub proof fn law_rules_test_before_verdict(wan: Seq<char>, lan: Seq<char>)
    ensures
        ({
            let rule = nat_chain(wan).rules[0];
            &&& rule.len() == 3
            &&& rule[0] is LoadOutputInterface
            &&& rule[1] == ExprView::MatchOctets(interface_field(wan))
            &&& rule[2] is Masquerade
        }),
        ({
            let rules = filter_chain(lan).rules;
            &&& forall|i: int|
                0 <= i < 2 ==> (#[trigger] rules[i]).len() == 3 && rules[i][0] is LoadInputInterface
                    && rules[i][2] is Accept
            &&& rules[0][1] == ExprView::MatchOctets(interface_field(seq!['l', 'o']))
            &&& rules[1][1] == ExprView::MatchOctets(interface_field(lan))
            &&& rules[2].len() == 3 && rules[2][0] is LoadProtocol && rules[2][1]
                == ExprView::MatchOctets(seq![1u8]) && rules[2][2] is Accept
            &&& rules[3].len() == 4 && rules[3][0] is LoadTrackState && rules[3][1]
                == ExprView::MaskNumber(6) && rules[3][2] is MatchNonZero && rules[3][3] is Accept
        }),
{
    reveal_strlit("lo");
    assert("lo"@ =~= seq!['l', 'o']);
    assert(2u32 | 4u32 == 6u32) by (bit_vector);
}

/// What becomes of a packet that comes in by an interface other than the loopback
/// and the inner one, and is not ICMP: it is let in where it is marked as one of an
/// established connection or as related to one, and dropped otherwise.
pub proof fn law_unasked_packet_is_dropped(lan: Seq<char>, packet: PacketProperties)
    requires
        packet.input_interface != interface_field(seq!['l', 'o']),
        packet.input_interface != interface_field(lan),
        packet.protocol != seq![1u8],
    ensures
        ({
            let chain = filter_chain(lan);
            let verdict = chain_verdict(chain.rules, chain.policy, packet);
            &&& packet.track_state / 2 % 2 == 1 || packet.track_state / 4 % 2 == 1 ==> verdict is Accept
            &&& packet.track_state / 2 % 4 == 0 ==> verdict is Drop
        }),
{
    reveal_strlit("lo");
    assert("lo"@ =~= seq!['l', 'o']);
    law_input_is_dropped_unless_allowed(lan, packet);
    let n = packet.track_state;
    assert(2u32 | 4u32 == 6u32) by (bit_vector);
    assert(n / 2 % 2 == 1 || n / 4 % 2 == 1 ==> n & 6 != 0) by (bit_vector);
    assert(n / 2 % 4 == 0 ==> n & 6 == 0) by (bit_vector);
}

/// What a chain of rules comes to: the verdict of the first rule that passes one,
/// and its policy where none does; and a rule passes its verdict only on packets
/// that pass every test in front of it.
pub proof fn law_first_verdict_counts(
    before: Seq<Seq<ExprView>>,
    rule: Seq<ExprView>,
    after: Seq<Seq<ExprView>>,
    policy: Verdict,
    packet: PacketProperties,
)
    requires
        forall|i: int|
            0 <= i < before.len() ==> rule_verdict(
                #[trigger] before[i],
                packet,
                Loaded::Nothing,
            ) is None,
    ensures
        chain_verdict(before, policy, packet) == policy,
        rule_verdict(rule, packet, Loaded::Nothing) matches Some(verdict) ==> chain_verdict(
            before.push(rule) + after,
            policy,
            packet,
        ) == verdict,
    decreases before.len(),
{
    let all = before.push(rule) + after;
    if before.len() > 0 {
        let tail = before.skip(1);
        assert forall|i: int| 0 <= i < tail.len() implies rule_verdict(
            #[trigger] tail[i],
            packet,
            Loaded::Nothing,
        ) is None by {
            assert(tail[i] == before[i + 1]);
        }
        law_first_verdict_counts(tail, rule, after, policy, packet);
        assert(all[0] == before[0]);
        assert(all.skip(1) =~= tail.push(rule) + after);
    } else {
        assert(all[0] == rule);
    }
}

/// The content of a chain and of an instruction is what their fields hold.
pub proof fn law_content_is_of_chain(chain: ChainPlan, expr: Expr)
    ensures
        chain@.name == chain.name@,
        chain@.hook == chain.hook,
        chain@.priority == chain.priority,
        chain@.kind == chain.kind,
        chain@.policy == chain.policy,
        chain@.rules == chain.rules.deep_view(),
        expr is LoadOutputInterface <==> expr.deep_view() is LoadOutputInterface,
        expr is LoadInputInterface <==> expr.deep_view() is LoadInputInterface,
        expr is LoadProtocol <==> expr.deep_view() is LoadProtocol,
        expr is LoadTrackState <==> expr.deep_view() is LoadTrackState,
        expr matches Expr::MatchOctets(octets) ==> expr.deep_view() == ExprView::MatchOctets(
            octets@,
        ),
        expr matches Expr::MaskNumber(mask) ==> expr.deep_view() == ExprView::MaskNumber(mask),
        expr is MatchNonZero <==> expr.deep_view() is MatchNonZero,
        expr is Masquerade <==> expr.deep_view() is Masquerade,
        expr is Accept <==> expr.deep_view() is Accept,
{
}

} // verus!
