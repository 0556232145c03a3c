//! The router's configuration.

use crate::text;
use vstd::prelude::*;

verus! {

/// Which interfaces the router serves, and its address on the inner one.
#[derive(Debug, Clone, PartialEq, Eq)]
pub struct RouterConfig {
    pub wan_interface: String,
    pub lan_interface: String,
    pub lan_ip: String,
}

/// The content of a `RouterConfig`.
pub struct RouterConfigView {
    pub wan_interface: Seq<char>,
    pub lan_interface: Seq<char>,
    pub lan_ip: Seq<char>,
}

impl View for RouterConfig {
    type V = RouterConfigView;

    open spec fn view(&self) -> RouterConfigView {
        RouterConfigView {
            wan_interface: self.wan_interface@,
            lan_interface: self.lan_interface@,
            lan_ip: self.lan_ip@,
        }
    }
}

/// What follows `prefix` in the last of the words that start with it.
pub open spec fn last_value(words: Seq<Seq<char>>, prefix: Seq<char>) -> Option<Seq<char>>
    decreases words.len(),
{
    if words.len() == 0 {
        None
    } else if text::has_prefix(words.last(), prefix) {
        Some(words.last().skip(prefix.len() as int))
    } else {
        last_value(words.drop_last(), prefix)
    }
}

/// A value, or what stands for it where it is missing.
pub open spec fn value_or(value: Option<Seq<char>>, default: Seq<char>) -> Seq<char> {
    match value {
        Some(v) => v,
        None => default,
    }
}

/// The configuration that the kernel's command line gives, if it could be read.
/// What it does not give is filled in.
pub open spec fn config_from(cmdline: Option<Seq<char>>) -> RouterConfigView {
    let words = match cmdline {
        Some(line) => text::words(line),
        None => seq![],
    };
    RouterConfigView {
        wan_interface: value_or(last_value(words, "rustyrouter.wan="@), "eth0"@),
        lan_interface: value_or(last_value(words, "rustyrouter.lan="@), "eth1"@),
        lan_ip: value_or(last_value(words, "rustyrouter.lan_ip="@), "192.168.1.1/24"@),
    }
}

/// The values that override the command line, if all three are there.
pub open spec fn overrides(
    wan: Option<String>,
    lan: Option<String>,
    lan_ip: Option<String>,
) -> Option<RouterConfigView> {
    if wan is Some && lan is Some && lan_ip is Some {
        Some(
            RouterConfigView {
                wan_interface: wan->Some_0@,
                lan_interface: lan->Some_0@,
                lan_ip: lan_ip->Some_0@,
            },
        )
    } else {
        None
    }
}

proof fn lemma_prefixes_are_apart(word: Seq<char>)
    ensures
        !(text::has_prefix(word, "rustyrouter.wan="@) && text::has_prefix(
            word,
            "rustyrouter.lan="@,
        )),
        !(text::has_prefix(word, "rustyrouter.wan="@) && text::has_prefix(
            word,
            "rustyrouter.lan_ip="@,
        )),
        !(text::has_prefix(word, "rustyrouter.lan="@) && text::has_prefix(
            word,
            "rustyrouter.lan_ip="@,
        )),
{
    reveal_strlit("rustyrouter.wan=");
    reveal_strlit("rustyrouter.lan=");
    reveal_strlit("rustyrouter.lan_ip=");
    let wan = "rustyrouter.wan="@;
    let lan = "rustyrouter.lan="@;
    let ip = "rustyrouter.lan_ip="@;
    if text::has_prefix(word, wan) {
        assert(word[12] == word.take(wan.len() as int)[12]);
    }
    if text::has_prefix(word, lan) {
        assert(word[12] == word.take(lan.len() as int)[12]);
        assert(word[15] == word.take(lan.len() as int)[15]);
    }
    if text::has_prefix(word, ip) {
        assert(word[12] == word.take(ip.len() as int)[12]);
        assert(word[15] == word.take(ip.len() as int)[15]);
    }
}

impl RouterConfig {
    /// The configuration. `wan`, `lan` and `lan_ip` are the environment's
    /// overrides, which count only where all three are there; `cmdline` is the
    /// kernel's command line, if it could be read.
    pub fn parse(
        wan: Option<String>,
        lan: Option<String>,
        lan_ip: Option<String>,
        cmdline: Option<&str>,
    ) -> (r: RouterConfig)
        ensures
            r@ == (match overrides(wan, lan, lan_ip) {
                Some(config) => config,
                None => config_from(
                    match cmdline {
                        Some(line) => Some(line@),
                        None => None,
                    },
                ),
            }),
    {
        if let (Some(w), Some(l), Some(ip)) = (wan, lan, lan_ip) {
            return RouterConfig { wan_interface: w, lan_interface: l, lan_ip: ip };
        }
        let mut parsed_wan: Option<String> = None;
        let mut parsed_lan: Option<String> = None;
        let mut parsed_lan_ip: Option<String> = None;
        let args: Vec<String> = match cmdline {
            Some(line) => text::split_whitespace(line),
            None => Vec::new(),
        };
        let ghost all = args.deep_view();
        proof {
            if cmdline is None {
                assert(all =~= seq![]);
            }
        }
        let mut i: usize = 0;
        while i < args.len()
            invariant
                i <= args.len(),
                all == args.deep_view(),
                opt_text(parsed_wan) == last_value(all.take(i as int), "rustyrouter.wan="@),
                opt_text(parsed_lan) == last_value(all.take(i as int), "rustyrouter.lan="@),
                opt_text(parsed_lan_ip) == last_value(all.take(i as int), "rustyrouter.lan_ip="@),
            decreases args.len() - i,
        {
            let arg = args[i].as_str();
            proof {
                let seen = all.take(i + 1);
                assert(seen.last() == arg@);
                assert(seen.drop_last() =~= all.take(i as int));
                lemma_prefixes_are_apart(arg@);
            }
            if let Some(val) = text::strip_prefix(arg, "rustyrouter.wan=") {
                parsed_wan = Some(val);
            } else if let Some(val) = text::strip_prefix(arg, "rustyrouter.lan=") {
                parsed_lan = Some(val);
            } else if let Some(val) = text::strip_prefix(arg, "rustyrouter.lan_ip=") {
                parsed_lan_ip = Some(val);
            }
            i += 1;
        }
        assert(all.take(i as int) =~= all);
        RouterConfig {
            wan_interface: text_or(parsed_wan, "eth0"),
            lan_interface: text_or(parsed_lan, "eth1"),
            lan_ip: text_or(parsed_lan_ip, "192.168.1.1/24"),
        }
    }
}

/// The characters of a text, if it is there.
pub open spec fn opt_text(value: Option<String>) -> Option<Seq<char>> {
    match value {
        Some(v) => Some(v@),
        None => None,
    }
}

/// A value, or what stands for it where it is missing.
fn text_or(value: Option<String>, default: &str) -> (r: String)
    ensures
        r@ == value_or(opt_text(value), default@),
{
    match value {
        Some(v) => v,
        None => default.to_owned(),
    }
}

/// The last setting of a parameter on the command line is the one that counts,
/// and what follows it about other things has no bearing on it.
pub proof fn law_last_setting_counts(
    before: Seq<Seq<char>>,
    value: Seq<char>,
    after: Seq<Seq<char>>,
    prefix: Seq<char>,
)
    requires
        forall|i: int| 0 <= i < after.len() ==> !text::has_prefix(#[trigger] after[i], prefix),
    ensures
        last_value(before.push(prefix + value) + after, prefix) == Some(value),
    decreases after.len(),
{
    let words = before.push(prefix + value) + after;
    if after.len() == 0 {
        assert(words.last() == prefix + value);
        assert((prefix + value).take(prefix.len() as int) =~= prefix);
        assert((prefix + value).skip(prefix.len() as int) =~= value);
    } else {
        assert(words.last() == after[after.len() - 1]);
        assert(words.drop_last() =~= before.push(prefix + value) + after.drop_last());
        law_last_setting_counts(before, value, after.drop_last(), prefix);
    }
}

/// Whether the last of some words that starts with `prefix` goes on with `value`.
pub open spec fn sets_last(words: Seq<Seq<char>>, prefix: Seq<char>, value: Seq<char>) -> bool {
    exists|i: int|
        0 <= i < words.len() && #[trigger] words[i] == prefix + value && forall|k: int|
            i < k < words.len() ==> !(exists|rest: Seq<char>|
                #[trigger] words[k] == #[trigger] (prefix + rest))
}

/// Whether none of some words starts with `prefix`.
pub open spec fn sets_none(words: Seq<Seq<char>>, prefix: Seq<char>) -> bool {
    forall|k: int, rest: Seq<char>|
        0 <= k < words.len() ==> #[trigger] words[k] != #[trigger] (prefix + rest)
}

proof fn lemma_last_value(words: Seq<Seq<char>>, prefix: Seq<char>, value: Seq<char>)
    ensures
        sets_last(words, prefix, value) ==> last_value(words, prefix) == Some(value),
        sets_none(words, prefix) ==> last_value(words, prefix) is None,
{
    if sets_last(words, prefix, value) {
        let i = choose|i: int|
            0 <= i < words.len() && #[trigger] words[i] == prefix + value && forall|k: int|
                i < k < words.len() ==> !(exists|rest: Seq<char>|
                    #[trigger] words[k] == #[trigger] (prefix + rest));
        let before = words.take(i);
        let after = words.skip(i + 1);
        assert(words =~= before.push(prefix + value) + after);
        assert forall|k: int| 0 <= k < after.len() implies !text::has_prefix(
            #[trigger] after[k],
            prefix,
        ) by {
            assert(after[k] == words[i + 1 + k]);
            text::law_prefix_stands_in_front(after[k], prefix);
        }
        law_last_setting_counts(before, value, after, prefix);
    }
    if sets_none(words, prefix) {
        lemma_no_value(words, prefix);
    }
}

proof fn lemma_no_value(words: Seq<Seq<char>>, prefix: Seq<char>)
    requires
        sets_none(words, prefix),
    ensures
        last_value(words, prefix) is None,
    decreases words.len(),
{
    if words.len() > 0 {
        text::law_prefix_stands_in_front(words.last(), prefix);
        assert(words[words.len() - 1] == words.last());
        let head = words.drop_last();
        assert forall|k: int, rest: Seq<char>| 0 <= k < head.len() implies #[trigger] head[k]
            != #[trigger] (prefix + rest) by {
            assert(head[k] == words[k]);
        }
        lemma_no_value(head, prefix);
    }
}

/// What the kernel's command line says of each of the three settings, independent of
/// the others: the last word that sets it counts, and where there is none, or the
/// line could not be read, it is `eth0`, `eth1` or `192.168.1.1/24`.
pub proof fn law_command_line_sets_each(line: Seq<char>, value: Seq<char>)
    ensures
        ({
            let words = text::words(line);
            let config = config_from(Some(line));
            &&& sets_last(words, "rustyrouter.wan="@, value) ==> config.wan_interface == value
            &&& sets_none(words, "rustyrouter.wan="@) ==> config.wan_interface == "eth0"@
            &&& sets_last(words, "rustyrouter.lan="@, value) ==> config.lan_interface == value
            &&& sets_none(words, "rustyrouter.lan="@) ==> config.lan_interface == "eth1"@
            &&& sets_last(words, "rustyrouter.lan_ip="@, value) ==> config.lan_ip == value
            &&& sets_none(words, "rustyrouter.lan_ip="@) ==> config.lan_ip == "192.168.1.1/24"@
        }),
        ({
            let config = config_from(None);
            &&& config.wan_interface == "eth0"@
            &&& config.lan_interface == "eth1"@
            &&& config.lan_ip == "192.168.1.1/24"@
        }),
{
    let words = text::words(line);
    lemma_last_value(words, "rustyrouter.wan="@, value);
    lemma_last_value(words, "rustyrouter.lan="@, value);
    lemma_last_value(words, "rustyrouter.lan_ip="@, value);
}

/// The environment overrides the command line only where it gives all three
/// settings, and then each of them.
pub proof fn law_overrides_count_together(
    wan: Option<String>,
    lan: Option<String>,
    lan_ip: Option<String>,
)
    ensures
        wan is None || lan is None || lan_ip is None ==> overrides(wan, lan, lan_ip) is None,
        wan matches Some(w) ==> (lan matches Some(l) ==> (lan_ip matches Some(ip) ==> (overrides(
            wan,
            lan,
            lan_ip,
        ) matches Some(config) && config.wan_interface == w@ && config.lan_interface == l@
            && config.lan_ip == ip@))),
{
}

/// The content of a configuration is what its three settings spell.
pub proof fn law_content_is_of_settings(config: RouterConfig)
    ensures
        config@.wan_interface == config.wan_interface@,
        config@.lan_interface == config.lan_interface@,
        config@.lan_ip == config.lan_ip@,
{
}

} // verus!
