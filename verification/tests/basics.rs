use rustyrouter::addr::{Ipv4Addr, MacAddr};
use rustyrouter::path;
use rustyrouter::services::sntp_client::{SyncAction, SyncSchedule};
use rustyrouter::services::utils::get_interface_mac;
use rustyrouter::subnet::Subnet;
use rustyrouter::text;
use rustyrouter::time::{Instant, NANOS_PER_SEC};

const TEXTS: [&str; 14] = [
    "",
    " ",
    "a",
    " a  b\tc\n",
    "a\r\nb\n\nc",
    "\r\n",
    "a\r",
    "a\n\r\n",
    "x/y//z/",
    "/",
    "\u{a0}\u{2003}é\u{85}ü\u{3000}",
    "a.b.c",
    "..",
    "./a/../b/.",
];

#[test]
fn white_space_is_as_in_the_standard_library() {
    for n in 0..0x11_0000u32 {
        if let Some(c) = char::from_u32(n) {
            assert_eq!(text::is_whitespace(c), c.is_whitespace(), "{:?}", c);
        }
    }
}

#[test]
fn texts_split_as_in_the_standard_library() {
    for t in TEXTS {
        assert_eq!(text::split_whitespace(t), t.split_whitespace().collect::<Vec<_>>(), "{:?}", t);
        assert_eq!(text::lines(t), t.lines().collect::<Vec<_>>(), "{:?}", t);
        assert_eq!(text::trim(t), t.trim(), "{:?}", t);
        for c in ['/', '.', 'a', ':'] {
            assert_eq!(text::split(t, c), t.split(c).collect::<Vec<_>>(), "{:?}", t);
            assert_eq!(text::until(t, c), t.split(c).next().unwrap(), "{:?}", t);
        }
        for p in ["", "a", "x/y", "a.b.c", "a.b.c.d"] {
            assert_eq!(text::strip_prefix(t, p).as_deref(), t.strip_prefix(p), "{:?}", t);
        }
    }
}

#[test]
fn paths_are_read_as_in_the_standard_library() {
    let mut all: Vec<&str> = TEXTS.to_vec();
    all.extend_from_slice(&[
        "a.ko.xz", ".xz", "/x/.xz", "..a", "a.", "/lib/a.ko/", "/lib/a.ko/.", "/lib/a.ko/..", "//", "a..b",
    ]);
    for t in all {
        let p = std::path::Path::new(t);
        let name = p.file_name().map(|n| n.to_str().unwrap().to_string());
        let ext = p.extension().map(|e| e.to_str().unwrap()).unwrap_or("");
        assert_eq!(path::file_name(t), name, "{:?}", t);
        assert_eq!(path::extension(t), ext, "{:?}", t);
        for dir in ["", "/", "/lib/modules", "rel/"] {
            let joined = std::path::Path::new(dir).join(t);
            assert_eq!(path::join(dir, t), joined.to_str().unwrap(), "{:?} {:?}", dir, t);
        }
    }
}

#[test]
fn addresses_and_octets() {
    let ip = Ipv4Addr::new(192, 168, 1, 2);
    assert_eq!(ip.bits, 0xc0a80102);
    assert_eq!(ip.octets(), [192, 168, 1, 2]);
    assert_eq!(Ipv4Addr::broadcast().octets(), [255; 4]);
    assert_eq!(Ipv4Addr::unspecified().octets(), [0; 4]);
    let mac = MacAddr::new(1, 2, 3, 4, 5, 6);
    assert_eq!(mac.octets(), [1, 2, 3, 4, 5, 6]);
    assert_eq!(mac.key(), 0x010203040506);
    assert_eq!(MacAddr::broadcast().octets(), [255; 6]);
}

#[test]
fn networks() {
    let net = Subnet::parse("192.168.1.1/24").unwrap();
    assert_eq!(net.addr, Ipv4Addr::new(192, 168, 1, 1));
    assert_eq!(net.prefix_len, 24);
    assert_eq!(net.netmask(), Ipv4Addr::new(255, 255, 255, 0));
    assert_eq!(Subnet::parse("10.0.0.1/0").unwrap().netmask(), Ipv4Addr::unspecified());
    assert_eq!(Subnet::parse("10.0.0.1/32").unwrap().netmask(), Ipv4Addr::broadcast());
    assert_eq!(Subnet::parse("10.0.0.1/33"), None);
    assert_eq!(Subnet::parse("10.0.0.1"), None);
    assert_eq!(Subnet::parse("10.0.0.256/8"), None);
    let odd = Subnet { addr: Ipv4Addr::new(10, 0, 7, 1), prefix_len: 8 };
    assert_eq!(Subnet::parse("10.00.007.1/08"), Some(odd));
    for text in [
        "", "/", "10.0.0.1/", "10.0.0.1/008", "0010.0.0.1/8", "10.0.0/8", "10.0.0.1.2/8",
        "10.0.0.1/8/9", "10.0..1/8", " 10.0.0.1/8", "10.0.0.1/8 ", "10.0.0.1/+8", "10.0.0.x/8",
        "10.0.0.٣/8", "::1/64",
    ] {
        assert_eq!(Subnet::parse(text), None, "{:?}", text);
    }
}

#[test]
fn clock_readings() {
    let t = Instant { nanos: 100 * NANOS_PER_SEC };
    assert!(t.is_in_range());
    assert!(!Instant { nanos: 1 }.is_in_range());
    assert!(!Instant { nanos: u64::MAX }.is_in_range());
    assert_eq!(t.after(5).nanos, 105 * NANOS_PER_SEC);
    assert_eq!(t.before(10).nanos, 90 * NANOS_PER_SEC);
    assert_eq!(t.after(5).elapsed_nanos(t), 5 * NANOS_PER_SEC);
    assert_eq!(t.elapsed_nanos(t.after(5)), 0);
    assert_eq!(Instant { nanos: t.nanos + 1_999_999_999 }.elapsed_secs(t), 1);
}

#[test]
fn hardware_address_of_an_interface() {
    let candidates = vec![vec![], vec![1, 2, 3, 4, 5, 6, 7, 8], vec![1, 2, 3, 4, 5, 6], vec![9; 6]];
    assert_eq!(get_interface_mac(&candidates), Some(MacAddr::new(1, 2, 3, 4, 5, 6)));
    assert_eq!(get_interface_mac(&vec![vec![1; 5]]), None);
    assert_eq!(get_interface_mac(&vec![]), None);
}

#[test]
fn clock_synchronisation_schedule() {
    let mut schedule = SyncSchedule::new();
    assert_eq!(schedule.next(false), SyncAction::Wait(5));
    assert_eq!(schedule.next(true), SyncAction::Sync);
    let waits: Vec<u64> = (0..6).map(|_| schedule.report(false)).collect();
    assert_eq!(waits, vec![60, 120, 240, 480, 900, 900]);
    assert_eq!(schedule.report(true), 1800);
    assert_eq!(schedule.report(false), 60);
    assert_eq!(schedule.report(false), 120);
    assert_eq!(schedule.next(false), SyncAction::Wait(5));
    assert_eq!(schedule.report(false), 60);
}
