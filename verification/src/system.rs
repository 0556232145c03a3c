//! The router as the first process of a system.

use crate::search::{MatchRule, ModuleSearch};
use crate::text;
use vstd::prelude::*;

verus! {

/// The process that the kernel starts first.
pub const INIT_PID: i32 = 1;

/// What is asked of the kernel when the system is to stop.
#[derive(Clone, Copy, Debug, PartialEq, Eq, Structural)]
pub enum RebootMode {
    /// Start again.
    AutoBoot,
    /// Power off.
    PowerOff,
}

/// The characters of a text, if it is there.
pub open spec fn opt_chars(value: Option<&str>) -> Option<Seq<char>> {
    match value {
        Some(v) => Some(v@),
        None => None,
    }
}

/// The system that the router runs on.
#[derive(Clone, Copy, Debug, PartialEq, Eq, Structural)]
pub struct RealSystem;

impl RealSystem {
    /// Whether a mount is passed over: only the first process mounts anything.
    pub fn skips_mount(&self, pid: i32) -> (r: bool)
        ensures
            r == (pid != INIT_PID),
            r <==> pid != 1,
    {
        pid != INIT_PID
    }
}

/// A file system that is to be mounted.
#[derive(Debug, PartialEq, Eq)]
pub struct MountRequest {
    pub source: Option<String>,
    pub target: String,
    pub fstype: String,
    pub flags: u64,
    pub data: Option<String>,
}

/// What is next in the mounting of the virtual file systems.
#[derive(Debug, PartialEq, Eq)]
pub enum MountStep {
    /// This is to be mounted.
    Mount(MountRequest),
    /// All are mounted.
    Done,
    /// One could not be mounted, for this reason.
    Failed(String),
}

/// Whether `step` is what comes next after mounts that went as `errors` says, an
/// error for each that failed: what the first failure leads to, or else the next
/// file system, if there is one.
pub open spec fn is_next_mount(step: MountStep, errors: Seq<Option<Seq<char>>>) -> bool {
    match first_failure(errors) {
        Some(n) => step matches MountStep::Failed(message) && message@ == mount_error(
            virtual_filesystems()[n].0,
            errors[n]->Some_0,
        ),
        None => if errors.len() >= virtual_filesystems().len() {
            step is Done
        } else {
            let (target, fstype) = virtual_filesystems()[errors.len() as int];
            step matches MountStep::Mount(request) && {
                &&& request.source is None
                &&& request.target@ == target
                &&& request.fstype@ == fstype
                &&& request.flags == 0
                &&& request.data is None
            }
        },
    }
}

/// The virtual file systems: where each is mounted and what it is, in order.
pub open spec fn virtual_filesystems() -> Seq<(Seq<char>, Seq<char>)> {
    seq![
        ("/proc"@, "proc"@),
        ("/sys"@, "sysfs"@),
        ("/dev"@, "devtmpfs"@),
        ("/run"@, "tmpfs"@),
    ]
}

/// Which of the mounts of the virtual file systems failed first, if any did.
pub open spec fn first_failure(errors: Seq<Option<Seq<char>>>) -> Option<int> {
    if exists|n: int| is_first_failure(errors, n) {
        Some(choose|n: int| is_first_failure(errors, n))
    } else {
        None
    }
}

/// Whether the `n`th mount failed and none before it did.
pub open spec fn is_first_failure(errors: Seq<Option<Seq<char>>>, n: int) -> bool {
    &&& 0 <= n < errors.len()
    &&& n < virtual_filesystems().len()
    &&& errors[n] is Some
    &&& forall|i: int| 0 <= i < n ==> #[trigger] errors[i] is None
}

/// What is said of a mount that failed.
pub open spec fn mount_error(target: Seq<char>, error: Seq<char>) -> Seq<char> {
    "Failed to mount "@ + target + ": "@ + error
}

/// The errors of some mounts.
pub open spec fn errors_of(results: Seq<Result<(), String>>) -> Seq<Option<Seq<char>>> {
    results.map_values(
        |result: Result<(), String>|
            match result {
                Ok(_) => None,
                Err(e) => Some(e@),
            },
    )
}

/// What is said of a mount that failed.
fn mount_failure(target: &str, error: &str) -> (r: String)
    ensures
        r@ == mount_error(target@, error@),
{
    let mut message = "Failed to mount ".to_owned();
    message.append(target);
    message.append(": ");
    message.append(error);
    message
}

/// The `n`th virtual file system.
fn virtual_filesystem(n: usize) -> (r: (&'static str, &'static str))
    requires
        n < 4,
    ensures
        (r.0@, r.1@) == virtual_filesystems()[n as int],
{
    if n == 0 {
        ("/proc", "proc")
    } else if n == 1 {
        ("/sys", "sysfs")
    } else if n == 2 {
        ("/dev", "devtmpfs")
    } else {
        ("/run", "tmpfs")
    }
}

/// What is next in the mounting of the virtual file systems. `results` says how
/// each mount so far went, in order.
pub fn mount_virtual_filesystems(results: &Vec<Result<(), String>>) -> (r: MountStep)
    ensures
        is_next_mount(r, errors_of(results@)),
{
    let ghost errors = errors_of(results@);
    let mut i: usize = 0;
    while i < 4 && i < results.len()
        invariant
            i <= 4,
            i <= results.len(),
            errors == errors_of(results@),
            forall|k: int| 0 <= k < i ==> #[trigger] errors[k] is None,
        decreases 4 - i,
    {
        if let Err(e) = &results[i] {
            proof {
                assert(errors[i as int] == Some(e@));
                assert(is_first_failure(errors, i as int));
                let n = first_failure(errors)->Some_0;
                assert(is_first_failure(errors, n));
                assert(n == i) by {
                    if n < i {
                        assert(errors[n] is None);
                    } else if i < n {
                        assert(errors[i as int] is None);
                    }
                }
            }
            let (target, _) = virtual_filesystem(i);
            return MountStep::Failed(mount_failure(target, e.as_str()));
        }
        i += 1;
    }
    proof {
        assert forall|n: int| !is_first_failure(errors, n) by {
            if 0 <= n < i {
                assert(errors[n] is None);
            }
        }
    }
    if i == 4 {
        return MountStep::Done;
    }
    let (target, fstype) = virtual_filesystem(i);
    MountStep::Mount(
        MountRequest {
            source: None,
            target: target.to_owned(),
            fstype: fstype.to_owned(),
            flags: 0,
            data: None,
        },
    )
}

/// Four mounts are made, in their order, as long as none fails, and none after
/// one that failed.
pub proof fn law_mounts_are_made_in_order(errors: Seq<Option<Seq<char>>>, step: MountStep)
    requires
        is_next_mount(step, errors),
    ensures
        step matches MountStep::Mount(request) ==> errors.len() < 4 && request.target@
            == virtual_filesystems()[errors.len() as int].0 && forall|i: int|
            0 <= i < errors.len() ==> #[trigger] errors[i] is None,
        step is Done ==> errors.len() >= 4 && forall|i: int|
            0 <= i < 4 ==> #[trigger] errors[i] is None,
        step is Failed ==> exists|i: int|
            0 <= i < 4 && i < errors.len() && #[trigger] errors[i] is Some,
{
    match first_failure(errors) {
        Some(n) => {
            assert(is_first_failure(errors, n));
        },
        None => {
            assert forall|i: int| 0 <= i < 4 && i < errors.len() implies #[trigger] errors[i]
                is None by {
                lemma_no_failure_before(errors, i + 1);
            }
        },
    }
}

proof fn lemma_no_failure_before(errors: Seq<Option<Seq<char>>>, n: int)
    requires
        forall|k: int| !is_first_failure(errors, k),
        0 <= n <= errors.len(),
        n <= 4,
    ensures
        forall|i: int| 0 <= i < n ==> #[trigger] errors[i] is None,
    decreases n,
{
    if n > 0 {
        lemma_no_failure_before(errors, n - 1);
        assert(!is_first_failure(errors, n - 1));
    }
}

/// What is done after a panic.
#[derive(Clone, Copy, Debug, PartialEq, Eq, Structural)]
pub struct PanicResponse {
    /// How the system is stopped.
    pub mode: RebootMode,
    /// Whether to wait for that for ever: the first process must not end.
    pub wait_forever: bool,
}

/// What is done after a panic: the system is started again.
pub fn panic_response(pid: i32) -> (r: PanicResponse)
    ensures
        r.mode == RebootMode::AutoBoot,
        r.wait_forever == (pid == INIT_PID),
        r.wait_forever <==> pid == 1,
{
    PanicResponse { mode: RebootMode::AutoBoot, wait_forever: pid == INIT_PID }
}

/// The paths of the devices that may have a power button, `/dev/input/event*`,
/// out of the names that `/dev/input` lists.
pub open spec fn input_devices(names: Seq<Seq<char>>) -> Seq<Seq<char>> {
    names.filter(|name: Seq<char>| text::has_prefix(name, "event"@)).map_values(
        |name: Seq<char>| "/dev/input/"@ + name,
    )
}

/// The paths of the devices that may have a power button, out of the names that
/// `/dev/input` lists and in the order of that list.
pub fn power_button_devices(names: &Vec<String>) -> (r: Vec<String>)
    ensures
        r.deep_view() == input_devices(names.deep_view()),
{
    let ghost all = names.deep_view();
    let ghost wanted = |name: Seq<char>| text::has_prefix(name, "event"@);
    let ghost full = |name: Seq<char>| "/dev/input/"@ + name;
    let mut out: Vec<String> = Vec::new();
    let mut i: usize = 0;
    proof {
        reveal(Seq::filter);
        assert(all.take(0).filter(wanted).map_values(full) =~= seq![]);
        assert(out.deep_view() =~= seq![]);
    }
    while i < names.len()
        invariant
            i <= names.len(),
            all == names.deep_view(),
            wanted == (|name: Seq<char>| text::has_prefix(name, "event"@)),
            full == (|name: Seq<char>| "/dev/input/"@ + name),
            out.deep_view() == all.take(i as int).filter(wanted).map_values(full),
        decreases names.len() - i,
    {
        let name = names[i].as_str();
        let ghost before = out.deep_view();
        let ghost kept = all.take(i as int).filter(wanted);
        let is_event = text::strip_prefix(name, "event").is_some();
        proof {
            reveal(Seq::filter);
            assert(all[i as int] == name@);
            assert(all.take(i + 1).drop_last() =~= all.take(i as int));
            assert(all.take(i + 1).last() == name@);
            assert(is_event == wanted(name@));
        }
        if is_event {
            out.push(text::joined("/dev/input/", name));
            proof {
                assert(out.deep_view() =~= before.push(full(name@)));
                assert(kept.push(name@).map_values(full) =~= kept.map_values(full).push(
                    full(name@),
                ));
            }
        }
        i += 1;
    }
    assert(all.take(i as int) =~= all);
    out
}

/// The paths that are watched are those of the listed devices whose name starts
/// with `event`, however many there are, and no others.
pub proof fn law_every_event_device_is_watched(names: Seq<Seq<char>>, name: Seq<char>)
    ensures
        input_devices(names).contains("/dev/input/"@ + name) <==> names.contains(name)
            && text::has_prefix(name, "event"@),
{
    let wanted = |n: Seq<char>| text::has_prefix(n, "event"@);
    let kept = names.filter(wanted);
    let paths = input_devices(names);
    let path = "/dev/input/"@ + name;
    if paths.contains(path) {
        let i = choose|i: int| 0 <= i < paths.len() && paths[i] == path;
        let n = "/dev/input/"@.len() as int;
        assert(kept[i] =~= paths[i].skip(n));
        assert(name =~= path.skip(n));
        assert(kept[i] == name);
        names.lemma_filter_pred(wanted, i);
        lemma_kept_was_there(names, wanted, i);
    }
    if names.contains(name) && text::has_prefix(name, "event"@) {
        let k = choose|k: int| 0 <= k < names.len() && names[k] == name;
        names.lemma_filter_contains(wanted, k);
        let i = choose|i: int| 0 <= i < kept.len() && kept[i] == name;
        assert(paths[i] == path);
    }
}

proof fn lemma_kept_was_there(names: Seq<Seq<char>>, wanted: spec_fn(Seq<char>) -> bool, i: int)
    requires
        0 <= i < names.filter(wanted).len(),
    ensures
        names.contains(names.filter(wanted)[i]),
    decreases names.len(),
{
    reveal(Seq::filter);
    let rest = names.drop_last();
    if i < rest.filter(wanted).len() {
        lemma_kept_was_there(rest, wanted, i);
        let kept = rest.filter(wanted)[i];
        let k = choose|k: int| 0 <= k < rest.len() && rest[k] == kept;
        assert(names[k] == kept);
    } else {
        assert(names[names.len() - 1] == names.last());
    }
}

/// The kind of input event that is about a key.
pub const EVENT_KEY: u16 = 1;

/// The code of the power key.
pub const KEY_POWER: u16 = 116;

/// Whether an input event says that the power button was pressed.
pub fn is_power_button_press(event_type: u16, code: u16, value: i32) -> (r: bool)
    ensures
        r == (event_type == EVENT_KEY && code == KEY_POWER && value == 1),
        r <==> event_type == 1 && code == 116 && value == 1,
{
    event_type == EVENT_KEY && code == KEY_POWER && value == 1
}

/// The kernel release that `/proc/version` names: its third word, if the first
/// two are as expected.
pub open spec fn version_release(version: Seq<char>) -> Option<Seq<char>> {
    let parts = text::words(version);
    if parts.len() > 2 && parts[0] == "Linux"@ && parts[1] == "version"@ {
        Some(parts[2])
    } else {
        None
    }
}

/// The kernel release: the one that `/proc/version` names, or else the one that
/// `uname` gives, which a kernel may change for a program of another word size;
/// empty where there is neither.
pub open spec fn release_of(version: Option<Seq<char>>, uname: Option<Seq<char>>) -> Seq<char> {
    let named = match version {
        Some(v) => version_release(v),
        None => None,
    };
    match named {
        Some(release) => release,
        None => match uname {
            Some(release) => release,
            None => seq![],
        },
    }
}

/// The kernel release, from the text of `/proc/version` and what `uname` gives,
/// each if it could be had.
pub fn get_kernel_release(version: Option<&str>, uname: Option<&str>) -> (r: String)
    ensures
        r@ == release_of(opt_chars(version), opt_chars(uname)),
{
    if let Some(content) = version {
        let parts = text::split_whitespace(content);
        let ghost all = parts.deep_view();
        assert(all.len() == parts.len());
        if parts.len() > 2 {
            proof {
                assert(all[0] == parts[0]@);
                assert(all[1] == parts[1]@);
                assert(all[2] == parts[2]@);
            }
            if text::same(parts[0].as_str(), "Linux") && text::same(parts[1].as_str(), "version") {
                return parts[2].as_str().to_owned();
            }
        }
    }
    match uname {
        Some(release) => release.to_owned(),
        None => {
            let none = String::new();
            assert(none@ =~= seq![]);
            none
        },
    }
}

/// The search for the file of a module, and the directory at whose listing it
/// starts: nothing where the kernel release is not known. Only the modules of
/// the running release are searched: the files of another may be for another
/// word size.
pub fn find_module_file(name: &str, release: &str) -> (r: Option<(String, ModuleSearch)>)
    ensures
        r is None <==> release@.len() == 0,
        r matches Some((dir, search)) ==> {
            &&& dir@ == crate::kmod::modules_dir_of(release@)
            &&& search.pending() == Seq::<crate::search::EntryView>::empty()
            &&& search.base() == name@ + ".ko"@
            &&& search.match_rule() == MatchRule::Archive
        },
{
    if text::to_chars(release).len() == 0 {
        return None;
    }
    Some(
        (
            crate::kmod::modules_dir(release),
            ModuleSearch::new(text::joined(name, ".ko"), MatchRule::Archive),
        ),
    )
}

/// The modules that are loaded one by one, without regard to dependencies, in
/// this order.
pub open spec fn required_modules() -> Seq<Seq<char>> {
    seq![
        "failover"@,
        "net_failover"@,
        "virtio_net"@,
        "nfnetlink"@,
        "libcrc32c"@,
        "nf_defrag_ipv4"@,
        "nf_defrag_ipv6"@,
        "nf_tables"@,
        "nf_conntrack"@,
        "nf_nat"@,
        "nft_ct"@,
        "nft_chain_nat"@,
        "nft_masq"@,
    ]
}

/// The modules that are loaded one by one, without regard to dependencies, in
/// this order.
pub fn load_required_modules() -> (r: Vec<String>)
    ensures
        r.deep_view() == required_modules(),
{
    let r = vec![
        "failover".to_owned(),
        "net_failover".to_owned(),
        "virtio_net".to_owned(),
        "nfnetlink".to_owned(),
        "libcrc32c".to_owned(),
        "nf_defrag_ipv4".to_owned(),
        "nf_defrag_ipv6".to_owned(),
        "nf_tables".to_owned(),
        "nf_conntrack".to_owned(),
        "nf_nat".to_owned(),
        "nft_ct".to_owned(),
        "nft_chain_nat".to_owned(),
        "nft_masq".to_owned(),
    ];
    assert(r.deep_view() =~= required_modules());
    r
}

/// What is asked for in the mounting of the virtual file systems, as long as none
/// failed: first `proc` on `/proc`, then `sysfs` on `/sys`, `devtmpfs` on `/dev` and
/// `tmpfs` on `/run`, each without a source, flags or data; then nothing more.
pub proof fn law_each_mount_has_its_place(errors: Seq<Option<Seq<char>>>, step: MountStep)
    requires
        is_next_mount(step, errors),
        forall|i: int| 0 <= i < errors.len() && i < 4 ==> #[trigger] errors[i] is None,
    ensures
        errors.len() >= 4 ==> step is Done,
        errors.len() < 4 ==> (step matches MountStep::Mount(request) && {
            &&& request.source is None && request.data is None && request.flags == 0
            &&& errors.len() == 0 ==> request.target@ == "/proc"@ && request.fstype@ == "proc"@
            &&& errors.len() == 1 ==> request.target@ == "/sys"@ && request.fstype@ == "sysfs"@
            &&& errors.len() == 2 ==> request.target@ == "/dev"@ && request.fstype@ == "devtmpfs"@
            &&& errors.len() == 3 ==> request.target@ == "/run"@ && request.fstype@ == "tmpfs"@
        }),
{
    if first_failure(errors) is Some {
        let n = first_failure(errors)->Some_0;
        assert(is_first_failure(errors, n));
        assert(errors[n] is None);
    }
}

/// What is said of the first of the four mounts that failed: its place and its
/// error, and nothing of later ones.
pub proof fn law_first_failed_mount_is_told(
    errors: Seq<Option<Seq<char>>>,
    n: int,
    error: Seq<char>,
    step: MountStep,
)
    requires
        is_next_mount(step, errors),
        0 <= n < 4,
        n < errors.len(),
        errors[n] == Some(error),
        forall|i: int| 0 <= i < n ==> #[trigger] errors[i] is None,
    ensures
        step matches MountStep::Failed(message) && {
            &&& n == 0 ==> message@ == "Failed to mount "@ + "/proc"@ + ": "@ + error
            &&& n == 1 ==> message@ == "Failed to mount "@ + "/sys"@ + ": "@ + error
            &&& n == 2 ==> message@ == "Failed to mount "@ + "/dev"@ + ": "@ + error
            &&& n == 3 ==> message@ == "Failed to mount "@ + "/run"@ + ": "@ + error
        },
{
    assert(is_first_failure(errors, n));
    let m = first_failure(errors)->Some_0;
    assert(is_first_failure(errors, m));
    if m < n {
        assert(errors[m] is None);
    } else if n < m {
        assert(errors[n] is None);
    }
}

/// The paths of the devices come in the order of the list, one for each name that
/// starts with `event` and none for any other.
pub proof fn law_devices_come_in_order(a: Seq<Seq<char>>, b: Seq<Seq<char>>, name: Seq<char>)
    ensures
        input_devices(a + b) == input_devices(a) + input_devices(b),
        input_devices(Seq::empty()) == Seq::<Seq<char>>::empty(),
        input_devices(seq!["event"@ + name]) == seq!["/dev/input/"@ + ("event"@ + name)],
        (forall|rest: Seq<char>| name != #[trigger] ("event"@ + rest)) ==> input_devices(seq![name])
            == Seq::<Seq<char>>::empty(),
{
    let wanted = |n: Seq<char>| text::has_prefix(n, "event"@);
    let full = |n: Seq<char>| "/dev/input/"@ + n;
    let event = "event"@;
    Seq::filter_distributes_over_add(a, b, wanted);
    assert((a.filter(wanted) + b.filter(wanted)).map_values(full) =~= a.filter(wanted).map_values(
        full,
    ) + b.filter(wanted).map_values(full));
    reveal(Seq::filter);
    assert(Seq::<Seq<char>>::empty().filter(wanted).map_values(full) =~= Seq::<Seq<char>>::empty());
    let one = seq![event + name];
    text::law_prefix_stands_in_front(event + name, event);
    assert(one.drop_last() =~= Seq::<Seq<char>>::empty());
    assert(one.filter(wanted) =~= one);
    assert(one.map_values(full) =~= seq![full(event + name)]);
    if forall|rest: Seq<char>| name != #[trigger] (event + rest) {
        text::law_prefix_stands_in_front(name, event);
        let other = seq![name];
        assert(other.drop_last() =~= Seq::<Seq<char>>::empty());
        assert(other.filter(wanted) =~= Seq::<Seq<char>>::empty());
        assert(other.filter(wanted).map_values(full) =~= Seq::<Seq<char>>::empty());
    }
}

/// The kernel release is the word behind `Linux version`, whatever follows it and
/// whatever `uname` gives. Where `/proc/version` starts with other words or could
/// not be read it is what `uname` gives, and empty where that gives nothing.
pub proof fn law_version_names_release(
    release: Seq<char>,
    rest: Seq<char>,
    other: Seq<char>,
    uname: Option<Seq<char>>,
)
    requires
        text::is_word(release),
        text::words(other).len() < 3 || text::words(other)[0] != "Linux"@ || text::words(other)[1]
            != "version"@,
    ensures
        release_of(Some("Linux"@ + seq![' '] + ("version"@ + seq![' '] + release)), uname)
            == release,
        release_of(
            Some("Linux"@ + seq![' '] + ("version"@ + seq![' '] + (release + seq![' '] + rest))),
            uname,
        ) == release,
        text::words(rest).len() > 2 && text::words(rest)[0] == "Linux"@ && text::words(rest)[1]
            == "version"@ ==> release_of(Some(rest), uname) == text::words(rest)[2],
        uname matches Some(u) ==> release_of(Some(other), uname) == u && release_of(None, uname)
            == u,
        uname is None ==> release_of(Some(other), uname) == Seq::<char>::empty() && release_of(
            None,
            uname,
        ) == Seq::<char>::empty(),
{
    let (linux, version) = ("Linux"@, "version"@);
    reveal_strlit("Linux");
    reveal_strlit("version");
    assert(text::is_word(linux));
    assert(text::is_word(version));
    let long = release + seq![' '] + rest;
    text::law_words_stand_between_spaces(release, ' ', rest);
    text::law_words_stand_between_spaces(version, ' ', release);
    text::law_words_stand_between_spaces(version, ' ', long);
    text::law_words_stand_between_spaces(linux, ' ', version + seq![' '] + release);
    text::law_words_stand_between_spaces(linux, ' ', version + seq![' '] + long);
    assert(text::words(linux + seq![' '] + (version + seq![' '] + release)) =~= seq![
        linux,
        version,
        release,
    ]);
    assert(text::words(linux + seq![' '] + (version + seq![' '] + long)) =~= seq![
        linux,
        version,
        release,
    ] + text::words(rest));
}

/// The modules that are loaded one by one: thirteen, each once, what another needs
/// in front of it, from the drivers of the network devices to the packet filter.
pub proof fn law_modules_are_loaded_in_order()
    ensures
        ({
            let modules = required_modules();
            &&& modules.len() == 13
            &&& modules[0] == "failover"@ && modules[1] == "net_failover"@
            &&& modules[2] == "virtio_net"@ && modules[3] == "nfnetlink"@
            &&& modules[4] == "libcrc32c"@ && modules[5] == "nf_defrag_ipv4"@
            &&& modules[6] == "nf_defrag_ipv6"@ && modules[7] == "nf_tables"@
            &&& modules[8] == "nf_conntrack"@ && modules[9] == "nf_nat"@
            &&& modules[10] == "nft_ct"@ && modules[11] == "nft_chain_nat"@
            &&& modules[12] == "nft_masq"@
        }),
{
}

/// What is known of a text that may be missing, and of the results of some mounts:
/// the characters of what is there, and the error of each mount that failed.
pub proof fn law_missing_text_stays_missing(
    text: Option<&str>,
    results: Seq<Result<(), String>>,
    i: int,
)
    requires
        0 <= i < results.len(),
    ensures
        text is None <==> opt_chars(text) is None,
        text matches Some(t) ==> opt_chars(text) == Some(t@),
        errors_of(results).len() == results.len(),
        results[i] is Ok ==> errors_of(results)[i] is None,
        results[i] matches Err(e) ==> errors_of(results)[i] == Some(e@),
{
}

} // verus!
