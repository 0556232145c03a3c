use rustyrouter::kmod;
use rustyrouter::kmod::{LoadPlan, LoadSession, LoadedModules, ModprobeError, ModuleTarget, Packing};
use rustyrouter::search::{DirEntry, MatchRule, ModuleSearch, SearchStep};
use std::io::Write;

const DEPENDENCIES: &str = "kernel/net/a.ko.xz: kernel/net/b.ko.xz kernel/lib/c.ko.xz\n\
kernel/net/b.ko.xz: kernel/lib/c.ko.xz\r\n\
kernel/lib/c.ko.xz:\n\
/\n\
kernel/net/lone.ko";

fn chars(s: &str) -> Vec<char> {
    s.chars().collect()
}

fn names(targets: &[ModuleTarget]) -> Vec<(String, String)> {
    targets.iter().map(|t| (t.name.clone(), t.path.clone())).collect()
}

fn pair(name: &str, path: &str) -> (String, String) {
    (name.to_string(), path.to_string())
}

fn plan(name: &str) -> Option<Vec<ModuleTarget>> {
    match kmod::load_module_with_dependencies(name, "6.1.0", Some(DEPENDENCIES), &LoadedModules::new()) {
        LoadPlan::Targets(targets) => Some(targets),
        _ => None,
    }
}

#[test]
fn dependencies_are_loaded_right_to_left_and_first() {
    let targets = plan("a").unwrap();
    assert_eq!(
        names(&targets),
        vec![
            pair("c", "/lib/modules/6.1.0/kernel/lib/c.ko.xz"),
            pair("b", "/lib/modules/6.1.0/kernel/net/b.ko.xz"),
            pair("a", "/lib/modules/6.1.0/kernel/net/a.ko.xz"),
        ]
    );
    let targets = plan("b").unwrap();
    assert_eq!(
        names(&targets),
        vec![
            pair("c", "/lib/modules/6.1.0/kernel/lib/c.ko.xz"),
            pair("b", "/lib/modules/6.1.0/kernel/net/b.ko.xz"),
        ]
    );
    let targets = plan("lone").unwrap();
    assert_eq!(names(&targets), vec![pair("lone", "/lib/modules/6.1.0/kernel/net/lone.ko")]);
}

#[test]
fn module_is_searched_where_dependencies_are_unknown() {
    let none = LoadedModules::new();
    assert!(matches!(
        kmod::load_module_with_dependencies("zzz", "6.1.0", Some(DEPENDENCIES), &none),
        LoadPlan::Search
    ));
    assert!(matches!(
        kmod::load_module_with_dependencies("a", "", Some(DEPENDENCIES), &none),
        LoadPlan::Search
    ));
    assert!(matches!(
        kmod::load_module_with_dependencies("a", "6.1.0", None, &none),
        LoadPlan::Search
    ));
}

#[test]
fn loaded_module_needs_nothing() {
    let mut loaded = LoadedModules::new();
    assert!(!loaded.contains("a"));
    kmod::record_load(&mut loaded, "a", false);
    assert!(!loaded.contains("a"));
    kmod::record_load(&mut loaded, "a", true);
    assert!(loaded.contains("a"));
    assert!(matches!(
        kmod::load_module_with_dependencies("a", "6.1.0", Some(DEPENDENCIES), &loaded),
        LoadPlan::Nothing
    ));
}

#[test]
fn session_loads_each_module_once() {
    let mut loaded = LoadedModules::new();
    loaded.insert("b");
    let mut session = LoadSession::new(plan("a").unwrap());
    let mut requested = Vec::new();
    while let Some(target) = session.next_target(&loaded) {
        requested.push(target.name.clone());
        kmod::record_load(&mut loaded, &target.name, true);
    }
    assert_eq!(requested, vec!["c".to_string(), "a".to_string()]);
    assert!(loaded.contains("a") && loaded.contains("b") && loaded.contains("c"));

    let mut again = LoadSession::new(plan("a").unwrap());
    assert!(again.next_target(&loaded).is_none());
}

#[test]
fn absolute_dependency_keeps_its_path() {
    let content = "kernel/a.ko: /opt/x.ko .. \n";
    let found = kmod::load_module_with_dependencies("a", "r", Some(content), &LoadedModules::new());
    match found {
        LoadPlan::Targets(targets) => assert_eq!(
            names(&targets),
            vec![
                pair("", "/lib/modules/r/.."),
                pair("x", "/opt/x.ko"),
                pair("a", "/lib/modules/r/kernel/a.ko"),
            ]
        ),
        _ => panic!("expected targets"),
    }
}

#[test]
fn required_modules_in_order() {
    assert_eq!(
        kmod::load_required_modules(),
        vec!["virtio_net", "virtio_pci", "virtio_mmio", "nft_masq", "nft_chain_nat", "nft_ct"]
    );
}

#[test]
fn module_name_among_arguments() {
    let parse = |args: &[&str]| {
        let owned: Vec<String> = args.iter().map(|a| a.to_string()).collect();
        kmod::parse_args_for_mod_name(&owned)
    };
    assert_eq!(parse(&[]), None);
    assert_eq!(parse(&["modprobe"]), None);
    assert_eq!(parse(&["/sbin/modprobe", "-q", "--", "-odd"]), Some("-odd".to_string()));
    assert_eq!(parse(&["/sbin/modprobe", "-q", "--"]), None);
    assert_eq!(parse(&["init", "modprobe", "-q", "nft_ct", "other"]), Some("nft_ct".to_string()));
    assert_eq!(parse(&["nft_ct"]), None);
    assert_eq!(parse(&["init", ""]), Some("".to_string()));
}

#[test]
fn wildcards() {
    let check = |p: &str, i: &str| kmod::wildcard_match(&chars(p), &chars(i));
    assert!(check("", ""));
    assert!(!check("", "a"));
    assert!(check("*", ""));
    assert!(check("*", "anything"));
    assert!(check("a*c", "abbbc"));
    assert!(check("a*c", "ac"));
    assert!(!check("a*c", "ab"));
    assert!(check("a?c", "abc"));
    assert!(!check("a?c", "ac"));
    assert!(check("**a", "bca"));
    assert!(check("plain", "plain"));
    assert!(!check("plain", "plainer"));
    assert!(check("pci:v00001AF4d*sv*", "pci:v00001AF4d00001000sv00001AF4"));
}

#[test]
fn aliases() {
    let content = "# comment\nalias pci:v1* virtio_pci\nalias net-pf-? other extra\nalias short\nnoalias x y\nalias pci:v1x late\n";
    assert_eq!(kmod::resolve_alias("pci:v1x", "6.1.0", Some(content)), "virtio_pci");
    assert_eq!(kmod::resolve_alias("net-pf-7", "6.1.0", Some(content)), "other");
    assert_eq!(kmod::resolve_alias("x", "6.1.0", Some(content)), "x");
    assert_eq!(kmod::resolve_alias("pci:v1x", "", Some(content)), "pci:v1x");
    assert_eq!(kmod::resolve_alias("pci:v1x", "6.1.0", None), "pci:v1x");
}

#[test]
fn modprobe_request() {
    let args = vec!["modprobe".to_string(), "-q".to_string(), "net-pf-1".to_string()];
    assert_eq!(
        kmod::run_as_modprobe(&args, "6.1.0", Some("alias net-pf-1 unix\n")),
        Ok("unix".to_string())
    );
    let error = kmod::run_as_modprobe(&args[..2], "6.1.0", None).unwrap_err();
    assert_eq!(error, ModprobeError::MissingModuleName);
    assert_eq!(error.message(), "Missing module name");
}

#[test]
fn paths_of_kernel_release() {
    assert_eq!(kmod::get_kernel_release(Some("6.1.0".to_string())), "6.1.0");
    assert_eq!(kmod::get_kernel_release(None), "");
    assert_eq!(kmod::dependency_file("6.1.0"), "/lib/modules/6.1.0/modules.dep");
    assert_eq!(kmod::alias_file("6.1.0"), "/lib/modules/6.1.0/modules.alias");
    assert_eq!(kmod::modules_dir("6.1.0"), "/lib/modules/6.1.0");
}

#[test]
fn existing_module_is_no_failure() {
    assert!(kmod::module_is_in(None));
    assert!(kmod::module_is_in(Some(17)));
    assert!(!kmod::module_is_in(Some(2)));
}

#[test]
fn packing_by_extension() {
    assert_eq!(kmod::packing("/lib/a.ko.xz"), Packing::Xz);
    assert_eq!(kmod::packing("/lib/a.ko.gz"), Packing::Gz);
    assert_eq!(kmod::packing("/lib/a.ko.zst"), Packing::Zst);
    assert_eq!(kmod::packing("/lib/a.ko"), Packing::Plain);
    assert_eq!(kmod::packing("/lib/xz"), Packing::Plain);
    assert_eq!(kmod::packing("/lib/.xz"), Packing::Plain);
    assert_eq!(kmod::packing("/lib/a.xz/.."), Packing::Plain);
    assert_eq!(kmod::packing("/lib/a.xz/"), Packing::Xz);
}

#[test]
fn plain_module_is_its_own_content() {
    assert_eq!(kmod::decompress_module(&[1, 2, 3], "a.ko"), Ok(vec![1, 2, 3]));
}

#[test]
fn xz_module_is_unpacked() {
    let content = b"module content module content".to_vec();
    let mut packed = Vec::new();
    lzma_rs::xz_compress(&mut std::io::Cursor::new(&content), &mut packed).unwrap();
    assert_ne!(packed, content);
    assert_eq!(kmod::decompress_module(&packed, "a.ko.xz"), Ok(content));
    assert!(kmod::decompress_module(b"not xz", "a.ko.xz").is_err());
}

#[test]
fn gz_module_is_unpacked() {
    let content = b"module content module content".to_vec();
    let mut encoder = flate2::write::GzEncoder::new(Vec::new(), flate2::Compression::default());
    encoder.write_all(&content).unwrap();
    let packed = encoder.finish().unwrap();
    assert_ne!(packed, content);
    assert_eq!(kmod::decompress_module(&packed, "a.ko.gz"), Ok(content));
    assert!(kmod::decompress_module(b"not gz", "a.ko.gz").is_err());
}

#[test]
fn zst_module_without_content_is_unpacked() {
    let empty: &[u8] = &[];
    let packed = ruzstd::encoding::compress_to_vec(empty, ruzstd::encoding::CompressionLevel::Fastest);
    assert!(!packed.is_empty());
    assert_eq!(kmod::decompress_module(&packed, "a.ko.zst"), Ok(vec![]));
    assert!(kmod::decompress_module(b"not zst", "a.ko.zst").is_err());
}

#[test]
fn zst_module_is_unpacked() {
    let content: Vec<u8> = (0..200_000u32).map(|n| (n * n / 7) as u8).collect();
    let level = ruzstd::encoding::CompressionLevel::Fastest;
    let packed = ruzstd::encoding::compress_to_vec(content.as_slice(), level);
    assert_ne!(packed, content);
    assert_eq!(kmod::decompress_module(&packed, "a.ko.zst"), Ok(content));
    assert!(kmod::decompress_module(&packed[..packed.len() / 2], "a.ko.zst").is_err());
}

#[test]
fn overflowing_size_in_an_xz_footer_is_noticed() {
    let content = b"module content module content".to_vec();
    let mut packed = Vec::new();
    lzma_rs::xz_compress(&mut std::io::Cursor::new(&content), &mut packed).unwrap();
    assert!(kmod::can_be_unpacked(&packed, "a.ko.xz"));

    let mut large = packed.clone();
    let field = large.len() - 8;
    large[field..field + 4].fill(255);
    assert!(!kmod::can_be_unpacked(&large, "a.ko.xz"));
    assert!(kmod::can_be_unpacked(&large, "a.ko.gz"));
    large.extend_from_slice(&[0; 20]);
    assert!(!kmod::can_be_unpacked(&large, "a.ko.xz"));
    large[field] = 254;
    assert!(kmod::can_be_unpacked(&large, "a.ko.xz"));
    assert!(kmod::decompress_module(&large, "a.ko.xz").is_err());

    // No block, an empty index, and the footer.
    let mut empty = packed[..12].to_vec();
    empty.extend_from_slice(&[0, 0, 0, 0, 1, 2, 3, 4, 5, 6, 7, 8, 255, 255, 255, 255]);
    assert!(!kmod::can_be_unpacked(&empty, "a.ko.xz"));
    assert!(kmod::can_be_unpacked(&empty[..27], "a.ko.xz"));
    // The same where the index does not account for what is in front of it.
    let mut inside = packed[..12].to_vec();
    inside.extend_from_slice(&[9; 4]);
    inside.extend_from_slice(&empty[12..]);
    assert!(kmod::can_be_unpacked(&inside, "a.ko.xz"));
    assert!(kmod::decompress_module(&inside, "a.ko.xz").is_err());
    assert!(kmod::can_be_unpacked(&[255; 64], "a.ko.xz"));
}

#[test]
fn zst_module_of_several_frames_is_unpacked() {
    let level = || ruzstd::encoding::CompressionLevel::Fastest;
    let first: &[u8] = b"module content";
    let second: &[u8] = b", and more of it";
    let skipped = [0x52, 0x2a, 0x4d, 0x18, 3, 0, 0, 0, 9, 9, 9];
    let mut packed = ruzstd::encoding::compress_to_vec(first, level());
    packed.extend_from_slice(&skipped);
    packed.extend_from_slice(&ruzstd::encoding::compress_to_vec(second, level()));
    assert!(kmod::can_be_unpacked(&packed, "a.ko.zst"));
    let content = b"module content, and more of it".to_vec();
    assert_eq!(kmod::decompress_module(&packed, "a.ko.zst"), Ok(content));
    assert_eq!(kmod::decompress_module(&skipped, "a.ko.zst"), Ok(vec![]));
    assert_eq!(kmod::decompress_module(&[], "a.ko.zst"), Ok(vec![]));
    packed.push(0);
    assert!(kmod::decompress_module(&packed, "a.ko.zst").is_err());
}

/// A frame with a block of eight octets and a block of sequences, by the three
/// octets that give their number.
fn frame_of_sequences(count: [u8; 3]) -> Vec<u8> {
    let mut frame = vec![0x28, 0xb5, 0x2f, 0xfd, 0, 0, 0x40, 0, 0];
    frame.extend_from_slice(&[7; 8]);
    frame.extend_from_slice(&[0xcd, 0x0e, 0x08, 0]);
    frame.extend_from_slice(&count);
    frame.extend_from_slice(&[0x54, 0, 0, 0x34]);
    frame.extend_from_slice(&[255; 66_000]);
    frame.push(1);
    frame
}

#[test]
fn zst_block_of_too_many_sequences_is_noticed() {
    assert!(!kmod::can_be_unpacked(&frame_of_sequences([255, 0xe8, 1]), "a.ko.zst"));
    assert!(!kmod::can_be_unpacked(&frame_of_sequences([255, 0xf8, 0]), "a.ko.zst"));
    assert!(kmod::can_be_unpacked(&frame_of_sequences([255, 0xf7, 0]), "a.ko.zst"));
    assert!(kmod::can_be_unpacked(&frame_of_sequences([255, 0xe8, 1]), "a.ko.gz"));
    let heavy = frame_of_sequences([255, 255, 255]);
    let mut later = ruzstd::encoding::compress_to_vec(
        b"content".as_slice(),
        ruzstd::encoding::CompressionLevel::Fastest,
    );
    later.extend_from_slice(&heavy);
    assert!(!kmod::can_be_unpacked(&later, "a.ko.zst"));
    assert!(kmod::can_be_unpacked(&heavy[..heavy.len() - 1], "a.ko.zst"));
    assert!(kmod::decompress_module(&heavy[..heavy.len() - 1], "a.ko.zst").is_err());
}

/// Loads the required modules with success and gives the names of those loaded.
fn load_all(dependencies: &str, loaded: &mut LoadedModules) -> Vec<String> {
    let mut tried = Vec::new();
    for name in kmod::load_required_modules() {
        let plan =
            kmod::load_module_with_dependencies(&name, "6.1.0", Some(dependencies), loaded);
        if let LoadPlan::Targets(targets) = plan {
            let mut session = LoadSession::new(targets);
            while let Some(target) = session.next_target(loaded) {
                kmod::record_load(loaded, &target.name, true);
                tried.push(target.name);
            }
        }
    }
    tried
}

#[test]
fn required_modules_are_loaded_once() {
    let dependencies = "k/virtio_net.ko: k/net_failover.ko k/failover.ko\n\
k/virtio_pci.ko:\n\
k/virtio_mmio.ko:\n\
k/nft_masq.ko: k/nf_nat.ko k/nf_conntrack.ko\n\
k/nft_chain_nat.ko: k/nf_nat.ko k/nf_conntrack.ko\n\
k/nft_ct.ko: k/nf_conntrack.ko\n";
    let mut loaded = LoadedModules::new();
    assert_eq!(
        load_all(dependencies, &mut loaded),
        vec![
            "failover",
            "net_failover",
            "virtio_net",
            "virtio_pci",
            "virtio_mmio",
            "nf_conntrack",
            "nf_nat",
            "nft_masq",
            "nft_chain_nat",
            "nft_ct",
        ]
    );
    assert!(kmod::load_required_modules().iter().all(|name| loaded.contains(name)));
    assert!(load_all(dependencies, &mut loaded).is_empty());
}

fn file(id: usize, name: &str) -> DirEntry {
    DirEntry { id, is_dir: false, name: Some(name.to_string()) }
}

fn dir(id: usize, name: &str) -> DirEntry {
    DirEntry { id, is_dir: true, name: Some(name.to_string()) }
}

#[test]
fn search_goes_depth_first() {
    let (top, mut search) = kmod::find_module_file("b", "6.1.0").unwrap();
    assert_eq!(top, "/lib/modules/6.1.0");
    search.enter(vec![file(1, "a.ko"), dir(2, "net"), file(3, "b.ko.xz")]);
    assert_eq!(search.step(), SearchStep::Descend(2));
    search.enter(vec![
        DirEntry { id: 4, is_dir: false, name: None },
        dir(5, "b.ko"),
        file(6, "b.ko"),
    ]);
    assert_eq!(search.step(), SearchStep::Descend(5));
    search.enter(vec![]);
    assert_eq!(search.step(), SearchStep::Found(6));
    assert!(kmod::find_module_file("b", "").is_none());
}

#[test]
fn search_ends_without_a_match() {
    let mut search = ModuleSearch::new("b.ko".to_string(), MatchRule::Archive);
    search.enter(vec![file(1, "b.ko.bz2"), file(2, "bb.ko")]);
    assert_eq!(search.step(), SearchStep::NotFound);
    assert_eq!(search.step(), SearchStep::NotFound);
}

#[test]
fn names_that_match() {
    let matches = rustyrouter::search::matches_name;
    assert!(matches(MatchRule::Stem, "b.anything", "b.ko"));
    assert!(matches(MatchRule::Stem, "b", "b.ko"));
    assert!(!matches(MatchRule::Stem, "bb.ko", "b.ko"));
    assert!(matches(MatchRule::Archive, "b.ko", "b.ko"));
    assert!(matches(MatchRule::Archive, "b.ko.xz", "b.ko"));
    assert!(matches(MatchRule::Archive, "b.ko.gz", "b.ko"));
    assert!(matches(MatchRule::Archive, "b.ko.zst", "b.ko"));
    assert!(!matches(MatchRule::Archive, "b.anything", "b.ko"));
}
