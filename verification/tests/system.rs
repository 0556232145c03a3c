use rustyrouter::search::SearchStep;
use rustyrouter::search::DirEntry;
use rustyrouter::system;
use rustyrouter::system::{
    mount_virtual_filesystems, MountRequest, MountStep, RealSystem, RebootMode,
};

struct MockSystem {
    failing: Option<String>,
    mount_calls: Vec<(Option<String>, String, String, u64)>,
}

impl MockSystem {
    fn new() -> MockSystem {
        MockSystem { failing: None, mount_calls: Vec::new() }
    }

    fn mount(&mut self, request: MountRequest) -> Result<(), String> {
        let failed = self.failing.as_ref() == Some(&request.target);
        self.mount_calls.push((request.source, request.target, request.fstype, request.flags));
        if failed {
            Err("EBUSY: Device or resource busy".to_string())
        } else {
            Ok(())
        }
    }

    fn mount_all(&mut self) -> Result<(), String> {
        let mut results = Vec::new();
        loop {
            match mount_virtual_filesystems(&results) {
                MountStep::Mount(request) => results.push(self.mount(request)),
                MountStep::Done => return Ok(()),
                MountStep::Failed(message) => return Err(message),
            }
        }
    }
}

#[test]
fn test_vfs_mounting() {
    let mut sys = MockSystem::new();
    let result = sys.mount_all();

    assert!(result.is_ok());
    let calls = &sys.mount_calls;
    assert_eq!(calls.len(), 4);
    assert_eq!(calls[0].1, "/proc");
    assert_eq!(calls[0].2, "proc");
    assert_eq!(calls[1].1, "/sys");
    assert_eq!(calls[1].2, "sysfs");
    assert_eq!(calls[2].1, "/dev");
    assert_eq!(calls[2].2, "devtmpfs");
    assert_eq!(calls[3].1, "/run");
    assert_eq!(calls[3].2, "tmpfs");
    assert!(calls.iter().all(|c| c.0.is_none() && c.3 == 0));
}

#[test]
fn mounting_stops_at_the_first_failure() {
    for (n, target) in ["/proc", "/sys", "/dev", "/run"].iter().enumerate() {
        let mut sys = MockSystem::new();
        sys.failing = Some(target.to_string());
        let error = sys.mount_all().unwrap_err();
        assert_eq!(error, format!("Failed to mount {}: EBUSY: Device or resource busy", target));
        assert_eq!(sys.mount_calls.len(), n + 1);
    }
}

#[test]
fn panic_leads_to_a_restart() {
    let ordinary = system::panic_response(99);
    assert_eq!(ordinary.mode, RebootMode::AutoBoot);
    assert!(!ordinary.wait_forever);
    let init = system::panic_response(1);
    assert_eq!(init.mode, RebootMode::AutoBoot);
    assert!(init.wait_forever);
}

#[test]
fn only_the_first_process_mounts() {
    assert!(!RealSystem.skips_mount(1));
    assert!(RealSystem.skips_mount(99));
}

#[test]
fn power_button() {
    assert!(system::is_power_button_press(1, 116, 1));
    assert!(!system::is_power_button_press(1, 116, 0));
    assert!(!system::is_power_button_press(1, 115, 1));
    assert!(!system::is_power_button_press(0, 116, 1));
    assert_eq!(evdev::EventType::KEY.0, system::EVENT_KEY);
    assert_eq!(evdev::Key::KEY_POWER.code(), system::KEY_POWER);
}

#[test]
fn every_event_device_is_watched() {
    let names = ["mice", "event12", "by-path", "event0", "js0", "event", "event5", "xevent1", "even"];
    let names: Vec<String> = names.iter().map(|n| n.to_string()).collect();
    assert_eq!(
        system::power_button_devices(&names),
        vec!["/dev/input/event12", "/dev/input/event0", "/dev/input/event", "/dev/input/event5"]
    );
    assert!(system::power_button_devices(&Vec::new()).is_empty());
}

#[test]
fn kernel_release_comes_from_proc_version_first() {
    let version = "Linux version 6.1.21-v8+ (user@host) (gcc) #1642";
    assert_eq!(system::get_kernel_release(Some(version), Some("6.1.21-v7+")), "6.1.21-v8+");
    assert_eq!(system::get_kernel_release(Some("Linux version"), Some("6.1.21-v7+")), "6.1.21-v7+");
    assert_eq!(system::get_kernel_release(Some("BSD version 1"), Some("6.1")), "6.1");
    assert_eq!(system::get_kernel_release(None, Some("6.1")), "6.1");
    assert_eq!(system::get_kernel_release(None, None), "");
}

#[test]
fn module_files_of_the_running_release() {
    let (dir, mut search) = system::find_module_file("nf_nat", "6.1").unwrap();
    assert_eq!(dir, "/lib/modules/6.1");
    search.enter(vec![
        DirEntry { id: 7, is_dir: false, name: Some("nf_nat.txt".to_string()) },
        DirEntry { id: 8, is_dir: false, name: Some("nf_nat.ko.zst".to_string()) },
    ]);
    assert_eq!(search.step(), SearchStep::Found(8));
    assert!(system::find_module_file("nf_nat", "").is_none());
}

#[test]
fn system_modules_in_order() {
    assert_eq!(
        system::load_required_modules(),
        vec![
            "failover",
            "net_failover",
            "virtio_net",
            "nfnetlink",
            "libcrc32c",
            "nf_defrag_ipv4",
            "nf_defrag_ipv6",
            "nf_tables",
            "nf_conntrack",
            "nf_nat",
            "nft_ct",
            "nft_chain_nat",
            "nft_masq",
        ]
    );
}
