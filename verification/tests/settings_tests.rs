use std::collections::HashMap;

use krun::config::{
    Arch, CacheType, CpuFeaturesTemplate, Devices, DisplayInfoEdid, EdidParams, Features, Host,
    IpAddr, KernelFormat, Os, PhysicalSize, PortConfig, VirtioConsoleConfigMode, VirtioNetBackend,
    VmConfig, VsockConfig,
};
use krun::contexts::{krun_create_ctx, krun_free_ctx, Contexts, MAX_ARGS};
use krun::egress::{address_part, krun_set_egress_policy};
use krun::errno::{Errno, Error};
use krun::guest::{
    collapse_str_array, krun_set_env, krun_set_exec, krun_set_rlimits, krun_set_workdir,
};
use krun::machine::{
    krun_check_nested_virt, krun_get_max_vcpus, krun_get_shutdown_eventfd, krun_has_feature,
    krun_set_control_socket, krun_set_cpu_template, krun_set_firmware, krun_set_kernel,
    krun_set_kernel_console, krun_set_nested_virt, krun_set_smbios_oem_strings,
    krun_set_snapshot, krun_set_tee_config_file, krun_set_vm_config, krun_setgid, krun_setuid,
    krun_split_irqchip,
};
use krun::net::{krun_add_net_tap, krun_add_net_unixgram, krun_add_net_unixstream};
use krun::overlay::VirtualEntryContent;
use krun::peripherals::{
    krun_add_console_port_inout, krun_add_console_port_tty, krun_add_display,
    krun_add_input_device, krun_add_input_device_fd, krun_add_serial_console_default,
    krun_add_vhost_user_device, krun_add_virtio_console_default,
    krun_add_virtio_console_multiport, krun_display_set_dpi, krun_display_set_edid,
    krun_display_set_physical_size, krun_display_set_refresh_rate, krun_set_display_backend,
    krun_set_gpu_options, krun_set_gpu_options2,
};
use krun::sockets::{
    krun_add_vsock, krun_add_vsock_port, krun_add_vsock_port2, krun_set_port_map,
};
use krun::storage::{
    disk_overlay_created, krun_add_disk, krun_add_disk2, krun_add_disk3, krun_add_virtiofs,
    krun_add_virtiofs2, krun_add_virtiofs3, krun_create_disk_overlay, krun_disable_implicit_init,
    krun_fs_add_overlay_dir, krun_fs_add_overlay_file, krun_get_default_init,
    krun_set_root_disk_remount,
};

const PAYLOAD: &[u8] = b"\x7fELF";
const NO_TEXT: &[u8] = b"\xff";
const MAC: [u8; 6] = [2, 0, 0, 0, 0, 1];

fn linux() -> Host {
    Host {
        os: Os::Linux,
        arch: Arch::X86_64,
        features: Features {
            net: true,
            blk: true,
            gpu: true,
            input: true,
            tee: false,
            amd_sev: false,
            tdx: false,
            aws_nitro: false,
            virgl_resource_map2: false,
            init_blob: true,
            vhost_user: true,
            fork: true,
        },
        devices: Devices {
            image_formats: 3,
            sync_modes: 3,
            sync_full: 2,
            sync_relaxed: 1,
            tsi_flags: 3,
            tsi_hijack_unix: 2,
            max_displays: 2,
        },
    }
}

fn with_os(os: Os) -> Host {
    Host { os, ..linux() }
}

fn plain() -> Host {
    let mut host = linux();
    host.features.gpu = false;
    host.features.input = false;
    host.features.vhost_user = false;
    host
}

fn setup() -> (Contexts, u32) {
    let mut ctxs = Contexts::new();
    let id = krun_create_ctx(
        &mut ctxs,
        false,
        None,
        VmConfig {
            vcpu_count: Some(1),
            mem_size_mib: Some(128),
            ht_enabled: Some(false),
            cpu_template: None,
        },
    );
    (ctxs, id as u32)
}

fn strings(items: &[&str]) -> Vec<Vec<u8>> {
    items.iter().map(|s| s.as_bytes().to_vec()).collect()
}

#[test]
fn contexts_are_numbered_and_freed() {
    let (mut ctxs, first) = setup();
    let config = ctxs.get(first).unwrap().vm_config;
    let second = krun_create_ctx(&mut ctxs, true, Some(7), config) as u32;
    assert_eq!((first, second), (0, 1));
    // A change stays in its context.
    assert_eq!(krun_setuid(&mut ctxs, first, 1000), Ok(0));
    assert_eq!(ctxs.get(first).unwrap().vmm_uid, Some(1000));
    assert_eq!(ctxs.get(second).unwrap().vmm_uid, None);
    // A freed number is not given again.
    assert_eq!(krun_free_ctx(&mut ctxs, second), Ok(0));
    assert_eq!(krun_free_ctx(&mut ctxs, second), Err(Errno::NoEnt));
    assert!(ctxs.get(second).is_none());
    assert_eq!(krun_create_ctx(&mut ctxs, false, None, config), 2);
    assert_eq!(krun_setuid(&mut ctxs, second, 1), Err(Errno::NoEnt));
}

#[test]
fn os_errors_keep_their_number() {
    assert_eq!(Error::new(13).errno(), 13);
    assert_eq!(Error::reported(Some(5)).errno(), 5);
    assert_eq!(Error::reported(None).errno(), 0);
}

#[test]
fn the_guest_gets_its_program() {
    let (mut ctxs, id) = setup();
    let vars = [("A".to_string(), "1".to_string()), ("B".to_string(), "x y".to_string())];
    assert_eq!(
        krun_set_exec(&mut ctxs, id, b"/bin/sh", Some(&strings(&["-c", "ls"])), None, &vars),
        Ok(0)
    );
    let c = ctxs.get(id).unwrap();
    assert_eq!(c.get_exec_path(), "KRUN_INIT=/bin/sh");
    assert_eq!(c.get_args(), "\"-c\" \"ls\"");
    assert_eq!(c.get_env(), " A=\"1\" B=\"x y\"");
    assert_eq!(krun_set_env(&mut ctxs, id, Some(&strings(&["P=/bin"])), &[]), Ok(0));
    assert_eq!(ctxs.get(id).unwrap().get_env(), "\"P=/bin\"");
    assert_eq!(krun_set_workdir(&mut ctxs, id, b"/root"), Ok(0));
    assert_eq!(
        krun_set_rlimits(&mut ctxs, id, Some(&strings(&["6=4096:8192", "7=1:2"]))),
        Ok(0)
    );
    let c = ctxs.get(id).unwrap();
    assert_eq!(c.get_workdir(), "KRUN_WORKDIR=/root");
    assert_eq!(c.get_rlimits(), "KRUN_RLIMITS=\"6=4096:8192,7=1:2\"");
    assert_eq!(c.get_block_root(), "");
    assert_eq!(krun_set_rlimits(&mut ctxs, id, None), Err(Errno::Inval));
    assert_eq!(krun_set_workdir(&mut ctxs, id, NO_TEXT), Err(Errno::Inval));
    assert_eq!(
        krun_set_exec(&mut ctxs, id, NO_TEXT, None, None, &[]),
        Err(Errno::Inval)
    );
    assert_eq!(
        krun_set_env(&mut ctxs, id, Some(&[NO_TEXT.to_vec()]), &[]),
        Err(Errno::Inval)
    );
    assert_eq!(krun_set_env(&mut ctxs, 9, None, &[]), Err(Errno::NoEnt));
}

#[test]
fn arrays_are_cut_at_their_maximum() {
    assert_eq!(collapse_str_array(&[]).unwrap(), "");
    assert_eq!(collapse_str_array(&strings(&["\u{e9}"])).unwrap(), "\"\u{e9}\"");
    assert!(collapse_str_array(&[NO_TEXT.to_vec()]).is_none());
    let mut many = vec![b"x".to_vec(); MAX_ARGS];
    many.push(NO_TEXT.to_vec());
    assert_eq!(collapse_str_array(&many).unwrap().len(), 4 * MAX_ARGS - 1);
}

#[test]
fn the_machine_is_configured() {
    let (mut ctxs, id) = setup();
    assert_eq!(krun_set_vm_config(&mut ctxs, id, 4, 2048, true), Ok(0));
    assert_eq!(krun_set_vm_config(&mut ctxs, id, 0, 0, false), Err(Errno::Inval));
    assert_eq!(krun_set_vm_config(&mut ctxs, 5, 4, 2048, true), Err(Errno::NoEnt));
    let vm = ctxs.get(id).unwrap().vm_config;
    assert_eq!(vm.vcpu_count, Some(4));
    assert_eq!(vm.mem_size_mib, Some(2048));
    assert_eq!(vm.ht_enabled, Some(false));

    // "GenuineIntel", as the cpuid leaf gives it.
    let (ebx, edx, ecx) = (0x756e_6547, 0x4965_6e69, 0x6c65_746e);
    let host = linux();
    let set = |ctxs: &mut Contexts, host: &Host, template: u32, ebx: u32| {
        krun_set_cpu_template(ctxs, host, id, template, ebx, edx, ecx, true)
    };
    assert_eq!(set(&mut ctxs, &host, 2, ebx), Err(Errno::Inval));
    assert_eq!(set(&mut ctxs, &host, 1, 0x6874_7541), Err(Errno::NotSup));
    assert_eq!(set(&mut ctxs, &with_os(Os::MacOs), 1, ebx), Err(Errno::NotSup));
    assert_eq!(ctxs.get(id).unwrap().vm_config.cpu_template, None);
    assert_eq!(set(&mut ctxs, &host, 1, ebx), Ok(0));
    let vm = ctxs.get(id).unwrap().vm_config;
    assert_eq!(vm.cpu_template, Some(CpuFeaturesTemplate::PortableV1));
    assert_eq!(vm.mem_size_mib, Some(2048));
}

#[test]
fn kernels_are_mapped_or_named() {
    let (mut ctxs, id) = setup();
    let host = linux();
    let arm = Host {
        arch: Arch::Aarch64,
        ..linux()
    };
    // A raw kernel is mapped on x86_64 ...
    assert_eq!(
        krun_set_kernel(&mut ctxs, &host, id, b"/k", 0, Some((0x7f00, 64)), None, None),
        Ok(0)
    );
    let bundle = ctxs.get(id).unwrap().kernel_bundle.unwrap();
    assert_eq!((bundle.host_addr, bundle.size), (0x7f00, 64));
    assert_eq!((bundle.guest_addr, bundle.entry_addr), (0x8000_0000, 0x8000_0000));
    assert_eq!(
        krun_set_kernel(&mut ctxs, &host, id, b"/k", 0, None, None, None),
        Err(Errno::Inval)
    );
    // ... and named elsewhere.
    assert_eq!(
        krun_set_kernel(&mut ctxs, &arm, id, b"/k", 0, None, Some((b"/i", Some(9))), Some(b"quiet")),
        Ok(0)
    );
    let kernel = ctxs.get(id).unwrap().external_kernel.as_ref().unwrap();
    assert_eq!(kernel.format, KernelFormat::Raw);
    assert_eq!(kernel.path, "/k");
    assert_eq!(kernel.initramfs_path.as_deref(), Some("/i"));
    assert_eq!(kernel.initramfs_size, 9);
    assert_eq!(kernel.cmdline.as_deref(), Some("quiet"));
    let formats = [
        (1, KernelFormat::Elf),
        (2, KernelFormat::PeGz),
        (3, KernelFormat::ImageBz2),
        (4, KernelFormat::ImageGz),
        (5, KernelFormat::ImageZstd),
    ];
    for (number, format) in formats {
        assert_eq!(
            krun_set_kernel(&mut ctxs, &host, id, b"/k", number, None, None, None),
            Ok(0)
        );
        let kernel = ctxs.get(id).unwrap().external_kernel.as_ref().unwrap();
        assert_eq!(kernel.format, format);
    }
    assert_eq!(
        krun_set_kernel(&mut ctxs, &host, id, b"/k", 6, None, None, None),
        Err(Errno::Inval)
    );
    // The initramfs has to have a size.
    assert_eq!(
        krun_set_kernel(&mut ctxs, &host, id, b"/k", 1, None, Some((b"/i", None)), None),
        Err(Errno::Inval)
    );
    let mut tee = linux();
    tee.features.tee = true;
    assert_eq!(
        krun_set_kernel(&mut ctxs, &tee, id, b"/k", 1, None, None, None),
        Err(Errno::OpNotSupp)
    );
}

#[test]
fn paths_and_switches_are_kept() {
    let (mut ctxs, id) = setup();
    assert_eq!(krun_set_firmware(&mut ctxs, id, b"/fw"), Ok(0));
    assert_eq!(krun_set_tee_config_file(&mut ctxs, id, b"/tee"), Ok(0));
    assert_eq!(krun_set_control_socket(&mut ctxs, id, Some(b"/ctl")), Ok(0));
    assert_eq!(krun_set_control_socket(&mut ctxs, id, None), Err(Errno::Inval));
    assert_eq!(krun_set_snapshot(&mut ctxs, id, Some(b"/snap")), Ok(0));
    assert_eq!(krun_set_snapshot(&mut ctxs, id, Some(NO_TEXT)), Err(Errno::Inval));
    assert_eq!(krun_set_kernel_console(&mut ctxs, id, b"hvc0"), Ok(0));
    assert_eq!(krun_set_nested_virt(&mut ctxs, id, true), Ok(0));
    assert_eq!(krun_setuid(&mut ctxs, id, 1), Ok(0));
    assert_eq!(krun_setgid(&mut ctxs, id, 2), Ok(0));
    assert_eq!(krun_split_irqchip(&mut ctxs, &linux(), id, true), Ok(0));
    let c = ctxs.get(id).unwrap();
    assert_eq!(c.firmware_config.as_deref(), Some("/fw"));
    assert_eq!(c.tee_config_file.as_deref(), Some("/tee"));
    assert_eq!(c.control_socket_path.as_deref(), Some("/ctl"));
    assert_eq!(c.snapshot_dir.as_deref(), Some("/snap"));
    assert_eq!(c.kernel_console.as_deref(), Some("hvc0"));
    assert!(c.nested_enabled && c.split_irqchip);
    assert_eq!((c.vmm_uid, c.vmm_gid), (Some(1), Some(2)));
    let arm = Host {
        arch: Arch::Aarch64,
        ..linux()
    };
    assert_eq!(krun_split_irqchip(&mut ctxs, &arm, id, true), Err(Errno::Inval));
    assert_eq!(krun_split_irqchip(&mut ctxs, &arm, id, false), Ok(0));

    assert_eq!(
        krun_set_smbios_oem_strings(&mut ctxs, id, Some(&strings(&["a", "b"]))),
        Ok(0)
    );
    assert_eq!(
        ctxs.get(id).unwrap().smbios_oem_strings,
        Some(vec!["a".to_string(), "b".to_string()])
    );
    assert_eq!(krun_set_smbios_oem_strings(&mut ctxs, id, Some(&[])), Ok(0));
    assert_eq!(ctxs.get(id).unwrap().smbios_oem_strings, None);
    assert_eq!(krun_set_smbios_oem_strings(&mut ctxs, id, None), Err(Errno::Inval));
}

#[test]
fn the_host_answers_for_itself() {
    let host = linux();
    assert_eq!(krun_has_feature(&host, 0), Ok(1));
    assert_eq!(krun_has_feature(&host, 6), Ok(0));
    assert_eq!(krun_has_feature(&host, 10), Ok(0));
    assert_eq!(krun_has_feature(&host, 11), Ok(1));
    assert_eq!(krun_has_feature(&host, 3), Err(Errno::Inval));
    assert_eq!(krun_get_max_vcpus(Some(288)), Ok(288));
    assert_eq!(krun_get_max_vcpus(None), Err(Errno::Inval));
    let lines = |s: &str| [s.to_string()];
    assert_eq!(krun_check_nested_virt(&host, None, &lines("1\n")), Ok(1));
    assert_eq!(krun_check_nested_virt(&host, None, &lines(" y ")), Ok(1));
    assert_eq!(krun_check_nested_virt(&host, None, &lines("N\n")), Ok(0));
    assert_eq!(krun_check_nested_virt(&host, None, &[]), Ok(0));
    let mac = with_os(Os::MacOs);
    assert_eq!(krun_check_nested_virt(&mac, Some(true), &[]), Ok(1));
    assert_eq!(krun_check_nested_virt(&mac, None, &[]), Err(Errno::Inval));
    assert_eq!(
        krun_check_nested_virt(&with_os(Os::Windows), None, &[]),
        Err(Errno::OpNotSupp)
    );

    let (mut ctxs, id) = setup();
    assert_eq!(krun_get_shutdown_eventfd(&ctxs, &host, id), Err(Errno::Inval));
    let config = ctxs.get(id).unwrap().vm_config;
    let other = krun_create_ctx(&mut ctxs, false, Some(8), config) as u32;
    assert_eq!(krun_get_shutdown_eventfd(&ctxs, &host, other), Ok(8));
    assert_eq!(
        krun_get_shutdown_eventfd(&ctxs, &with_os(Os::Windows), other),
        Err(Errno::NotSup)
    );
    assert_eq!(krun_get_shutdown_eventfd(&ctxs, &host, 99), Err(Errno::NoEnt));
}

#[test]
fn shared_directories_get_the_init() {
    let (mut ctxs, id) = setup();
    assert_eq!(
        krun_add_virtiofs(&mut ctxs, id, Some(PAYLOAD), Some(b"/dev/root"), Some(b"/srv")),
        Ok(0)
    );
    assert_eq!(
        krun_add_virtiofs2(&mut ctxs, id, Some(PAYLOAD), Some(b"data"), None, 4096),
        Ok(0)
    );
    let fs = &ctxs.get(id).unwrap().fs;
    assert_eq!(fs[0].virtual_entries.len(), 1);
    assert_eq!(fs[0].virtual_entries[0].name, "init.krun");
    assert_eq!(fs[0].virtual_entries[0].entry.mode, 0o755);
    assert!(fs[0].virtual_entries[0].entry.one_shot);
    assert_eq!(fs[0].shared_dir.as_deref(), Some("/srv"));
    assert_eq!(fs[0].shm_size, None);
    assert!(fs[1].virtual_entries.is_empty());
    assert_eq!(fs[1].shm_size, Some(4096));
    assert_eq!(fs[1].shared_dir, None);
    assert_eq!(
        krun_add_virtiofs3(&mut ctxs, id, None, None, None, 0, true),
        Err(Errno::Inval)
    );
    assert_eq!(
        krun_add_virtiofs3(&mut ctxs, 7, None, Some(b"t"), None, 0, true),
        Err(Errno::NoEnt)
    );
    assert_eq!(krun_get_default_init(Some(PAYLOAD), true), Ok(PAYLOAD));
    assert_eq!(krun_get_default_init(Some(PAYLOAD), false), Err(Errno::Inval));
    assert_eq!(krun_get_default_init(None, true), Err(Errno::NotSup));
    // Without an init there is nothing to disable.
    assert_eq!(krun_disable_implicit_init(&mut ctxs, 7, None), Ok(0));
    assert_eq!(
        krun_disable_implicit_init(&mut ctxs, 7, Some(PAYLOAD)),
        Err(Errno::NoEnt)
    );
}

#[test]
fn overlays_grow_in_their_directories() {
    let (mut ctxs, id) = setup();
    let tag: Option<&[u8]> = Some(b"data");
    krun_add_virtiofs(&mut ctxs, id, None, tag, None).unwrap();
    let dir = |ctxs: &mut Contexts, path: &[u8]| {
        krun_fs_add_overlay_dir(ctxs, id, tag, Some(path), 0o700)
    };
    let file = |ctxs: &mut Contexts, path: &[u8]| {
        krun_fs_add_overlay_file(ctxs, id, tag, Some(path), Some(b"hi"), 0o644, false)
    };
    assert_eq!(dir(&mut ctxs, b"/etc"), Ok(0));
    assert_eq!(file(&mut ctxs, b"etc/motd"), Ok(0));
    assert_eq!(file(&mut ctxs, b"usr/motd"), Err(Errno::NoEnt));
    assert_eq!(file(&mut ctxs, b"etc/motd/x"), Err(Errno::NotDir));
    assert_eq!(file(&mut ctxs, b"etc/"), Err(Errno::Inval));
    assert_eq!(file(&mut ctxs, b""), Err(Errno::Inval));
    assert_eq!(
        krun_fs_add_overlay_file(&mut ctxs, id, Some(b"nix"), Some(b"a"), Some(b""), 0, false),
        Err(Errno::NoEnt)
    );
    assert_eq!(
        krun_fs_add_overlay_file(&mut ctxs, id, tag, Some(b"a"), None, 0, false),
        Err(Errno::Inval)
    );
    assert_eq!(
        krun_fs_add_overlay_dir(&mut ctxs, id, tag, None, 0),
        Err(Errno::Inval)
    );
    let entries = &ctxs.get(id).unwrap().fs[0].virtual_entries;
    assert_eq!(entries.len(), 1);
    assert_eq!(entries[0].name, "etc");
    match &entries[0].entry.content {
        VirtualEntryContent::Dir { children } => {
            assert_eq!(children.len(), 1);
            assert_eq!(children[0].name, "motd");
            assert_eq!(children[0].entry.mode, 0o644);
            match &children[0].entry.content {
                VirtualEntryContent::File { data } => assert_eq!(data, b"hi"),
                other => panic!("{:?}", other),
            }
        }
        other => panic!("{:?}", other),
    }
}

#[test]
fn disks_have_formats_and_modes() {
    let (mut ctxs, id) = setup();
    let host = linux();
    let cache = CacheType::Writeback;
    assert_eq!(krun_add_disk(&mut ctxs, &host, id, b"vda", b"/a", cache, true), Ok(0));
    assert_eq!(
        krun_add_disk2(&mut ctxs, &with_os(Os::MacOs), id, b"vdb", b"/b", cache, 1, false),
        Ok(0)
    );
    assert_eq!(
        krun_add_disk3(&mut ctxs, &host, id, b"vdc", b"/c", CacheType::Unsafe, 2, false, true, 0),
        Ok(0)
    );
    let disks = &ctxs.get(id).unwrap().block_cfgs;
    assert_eq!(disks[0].block_id, "vda");
    assert_eq!(disks[0].disk_image_path, "/a");
    assert!(disks[0].is_disk_read_only);
    assert_eq!((disks[0].disk_image_format, disks[0].sync_mode), (0, 2));
    assert_eq!((disks[1].disk_image_format, disks[1].sync_mode), (1, 1));
    assert_eq!((disks[2].disk_image_format, disks[2].sync_mode), (2, 0));
    assert!(disks[2].direct_io && !disks[1].direct_io);
    assert_eq!(
        krun_add_disk3(&mut ctxs, &host, id, b"d", b"/d", cache, 3, false, true, 0),
        Err(Errno::Inval)
    );
    assert_eq!(
        krun_add_disk3(&mut ctxs, &host, id, b"d", b"/d", cache, 0, false, true, 3),
        Err(Errno::Inval)
    );
    assert_eq!(
        krun_add_disk(&mut ctxs, &host, id, NO_TEXT, b"/d", cache, false),
        Err(Errno::Inval)
    );

    let request = krun_create_disk_overlay(&host, b"/o", b"/base", 1).unwrap();
    assert_eq!(request.overlay_path, "/o");
    assert_eq!(request.base_path, "/base");
    assert_eq!(request.base_format, 1);
    assert!(krun_create_disk_overlay(&host, b"/o", b"/base", 9).is_err());
    assert_eq!(disk_overlay_created(true), Ok(0));
    assert_eq!(disk_overlay_created(false), Err(Errno::Io));
}

#[test]
fn the_root_disk_is_remounted_once() {
    let (mut ctxs, id) = setup();
    let remount = |ctxs: &mut Contexts| {
        krun_set_root_disk_remount(ctxs, id, Some(PAYLOAD), b"/dev/vda1", Some(b"auto"), Some(b"ro"))
    };
    // There has to be a disk.
    assert_eq!(remount(&mut ctxs), Err(Errno::Inval));
    krun_add_disk(&mut ctxs, &linux(), id, b"vda", b"/a", CacheType::Unsafe, false).unwrap();
    assert_eq!(remount(&mut ctxs), Ok(0));
    assert_eq!(remount(&mut ctxs), Err(Errno::Inval));
    let c = ctxs.get(id).unwrap();
    assert_eq!(
        c.get_block_root(),
        "KRUN_BLOCK_ROOT_DEVICE=/dev/vda1 KRUN_BLOCK_ROOT_OPTIONS=ro"
    );
    assert_eq!(c.fs[0].shm_size, Some(1 << 29));
    let names: Vec<&str> = c.fs[0].virtual_entries.iter().map(|e| e.name.as_str()).collect();
    assert_eq!(names, vec!["init.krun", "dev", "proc", "sys", "newroot"]);
}

#[test]
fn interfaces_are_numbered() {
    let (mut ctxs, id) = setup();
    let host = linux();
    assert_eq!(
        krun_add_net_unixstream(&mut ctxs, &host, id, Some(b"/s"), -1, MAC, 0, 2),
        Ok(0)
    );
    assert_eq!(
        krun_add_net_unixgram(&mut ctxs, &host, id, Some(b"/g"), -1, MAC, 1, 1),
        Ok(0)
    );
    assert_eq!(krun_add_net_unixgram(&mut ctxs, &host, id, None, 5, MAC, 0, 0), Ok(0));
    assert_eq!(krun_add_net_tap(&mut ctxs, &host, id, b"tap0", MAC, 0x83, 0), Ok(0));
    let c = ctxs.get(id).unwrap();
    let ids: Vec<&str> = c.net.iter().map(|n| n.iface_id.as_str()).collect();
    assert_eq!(ids, vec!["eth0", "eth1", "eth2", "eth3"]);
    assert_eq!(c.net_index, 4);
    assert!(c.dhcp_client);
    assert!(matches!(&c.net[0].backend, VirtioNetBackend::UnixstreamPath(p) if p == "/s"));
    assert!(matches!(&c.net[1].backend, VirtioNetBackend::UnixgramPath(p, true) if p == "/g"));
    assert!(matches!(c.net[2].backend, VirtioNetBackend::UnixgramFd(5)));
    assert!(matches!(&c.net[3].backend, VirtioNetBackend::Tap(t) if t == "tap0"));
    assert_eq!(c.net[3].mac, MAC);
    assert_eq!(c.net[3].features, 0x83);
}

#[test]
fn bad_interfaces_are_refused() {
    let (mut ctxs, id) = setup();
    let host = linux();
    let inval = Err(Errno::Inval);
    let stream = |ctxs: &mut Contexts, path: Option<&[u8]>, fd, features, flags| {
        krun_add_net_unixstream(ctxs, &host, id, path, fd, MAC, features, flags)
    };
    assert_eq!(stream(&mut ctxs, Some(b"/s"), 3, 0, 0), inval);
    assert_eq!(stream(&mut ctxs, None, -1, 0, 0), inval);
    assert_eq!(stream(&mut ctxs, None, 3, 4, 0), inval);
    assert_eq!(stream(&mut ctxs, None, 3, 0, 1), inval);
    assert_eq!(
        krun_add_net_unixstream(&mut ctxs, &with_os(Os::Windows), id, None, 3, MAC, 0, 0),
        inval
    );
    assert_eq!(
        krun_add_net_unixgram(&mut ctxs, &with_os(Os::Windows), id, None, 3, MAC, 0, 0),
        Err(Errno::NotSup)
    );
    assert_eq!(krun_add_net_unixgram(&mut ctxs, &host, id, None, 3, MAC, 0, 4), inval);
    // Guest offloads need the guest's checksums.
    assert_eq!(krun_add_net_tap(&mut ctxs, &host, id, b"tap0", MAC, 0x80, 0), inval);
    assert_eq!(
        krun_add_net_tap(&mut ctxs, &with_os(Os::MacOs), id, b"tap0", MAC, 0, 0),
        inval
    );
    assert!(ctxs.get(id).unwrap().net.is_empty());
    assert_eq!(
        krun_add_net_tap(&mut ctxs, &host, 9, b"tap0", MAC, 0, 0),
        Err(Errno::NoEnt)
    );
}

#[test]
fn sockets_need_their_device() {
    let (mut ctxs, id) = setup();
    let host = linux();
    assert_eq!(
        krun_add_vsock_port(&mut ctxs, &host, id, 1024, b"/p"),
        Err(Errno::NoDev)
    );
    assert_eq!(
        krun_set_port_map(&mut ctxs, id, &strings(&["80:8080"])),
        Err(Errno::NoDev)
    );
    assert_eq!(krun_add_vsock(&mut ctxs, &host, id, 4), Err(Errno::Inval));
    assert_eq!(
        krun_add_vsock(&mut ctxs, &with_os(Os::MacOs), id, 2),
        Err(Errno::Inval)
    );
    assert_eq!(krun_add_vsock(&mut ctxs, &host, id, 3), Ok(0));
    assert_eq!(krun_add_vsock(&mut ctxs, &host, id, 3), Err(Errno::Exist));
    assert_eq!(
        ctxs.get(id).unwrap().vsock_config,
        VsockConfig::Explicit { tsi_flags: 3 }
    );
    assert_eq!(krun_add_vsock_port(&mut ctxs, &host, id, 1024, b"/p"), Ok(0));
    let listen = |ctxs: &mut Contexts, host: &Host, exists| {
        krun_add_vsock_port2(ctxs, host, id, 1025, b"/q", true, exists)
    };
    assert_eq!(listen(&mut ctxs, &host, Some(true)), Err(Errno::Exist));
    assert_eq!(listen(&mut ctxs, &host, None), Err(Errno::Inval));
    let mut nitro = linux();
    nitro.features.aws_nitro = true;
    assert_eq!(listen(&mut ctxs, &nitro, Some(false)), Err(Errno::Inval));
    assert_eq!(listen(&mut ctxs, &host, Some(false)), Ok(0));
    let map = ctxs.get(id).unwrap().unix_ipc_port_map.as_ref().unwrap();
    assert_eq!(map[&1024], ("/p".to_string(), false));
    assert_eq!(map[&1025], ("/q".to_string(), true));
}

#[test]
fn port_maps_are_one_to_one() {
    let (mut ctxs, id) = setup();
    krun_add_vsock(&mut ctxs, &linux(), id, 0).unwrap();
    assert_eq!(
        krun_set_port_map(&mut ctxs, id, &strings(&["8080:80", "8443:443"])),
        Ok(0)
    );
    assert_eq!(
        ctxs.get(id).unwrap().tsi_port_map,
        Some(HashMap::from([(80, 8080), (443, 8443)]))
    );
    let bad = [
        vec!["8080:80", "8081:80"],
        vec!["8080:80", "8080:81"],
        vec!["8080"],
        vec!["1:2:3"],
        vec!["65536:1"],
        vec!["1:x"],
        vec![":1"],
    ];
    for items in bad {
        assert_eq!(
            krun_set_port_map(&mut ctxs, id, &strings(&items)),
            Err(Errno::Inval)
        );
    }
    assert_eq!(krun_set_port_map(&mut ctxs, id, &[]), Ok(0));
    krun_add_net_unixgram(&mut ctxs, &linux(), id, None, 5, MAC, 0, 0).unwrap();
    assert_eq!(
        krun_set_port_map(&mut ctxs, id, &strings(&["1:2"])),
        Err(Errno::Inval)
    );
}

#[test]
fn egress_policies_are_checked() {
    let (mut ctxs, id) = setup();
    let v4 = IpAddr::V4(0x0a00_0000);
    let v6 = IpAddr::V6(1);
    let range = |text: &str, ip| (text.as_bytes().to_vec(), ip);
    let cidrs = [range("10.0.0.0/8", Some(v4)), range("::1", Some(v6))];
    assert_eq!(
        krun_set_egress_policy(&mut ctxs, id, Some(&cidrs), None, None),
        Err(Errno::NoDev)
    );
    krun_add_vsock(&mut ctxs, &linux(), id, 0).unwrap();
    assert_eq!(krun_set_egress_policy(&mut ctxs, id, Some(&cidrs), None, None), Ok(0));
    assert_eq!(
        ctxs.get(id).unwrap().egress_cidrs,
        Some(vec![(v4, 8), (v6, 128)])
    );
    let inval = Err(Errno::Inval);
    assert_eq!(krun_set_egress_policy(&mut ctxs, id, None, None, None), inval);
    for bad in [
        range("10.0.0.0/33", Some(v4)),
        range("::1/129", Some(v6)),
        range("nonsense", None),
        range("10.0.0.0/", Some(v4)),
    ] {
        assert_eq!(krun_set_egress_policy(&mut ctxs, id, Some(&[bad]), None, None), inval);
    }
    // Host names need a resolver that is trusted.
    let hosts = strings(&["Example.COM.."]);
    assert_eq!(krun_set_egress_policy(&mut ctxs, id, None, Some(&hosts), None), inval);
    assert_eq!(
        krun_set_egress_policy(&mut ctxs, id, None, Some(&hosts), Some(&[None])),
        inval
    );
    assert_eq!(
        krun_set_egress_policy(&mut ctxs, id, None, Some(&hosts), Some(&[Some(v4)])),
        Ok(0)
    );
    let c = ctxs.get(id).unwrap();
    assert_eq!(c.egress_cidrs, None);
    assert_eq!(c.egress_hosts, Some(vec!["example.com".to_string()]));
    assert_eq!(c.egress_resolvers, Some(vec![v4]));
    for bad in ["a:1", "", "..."] {
        assert_eq!(
            krun_set_egress_policy(&mut ctxs, id, None, Some(&strings(&[bad])), Some(&[Some(v4)])),
            inval
        );
    }
    assert_eq!(krun_set_egress_policy(&mut ctxs, id, None, Some(&[]), None), Ok(0));
    assert_eq!(address_part(b"10.0.0.0/8").unwrap(), "10.0.0.0");
    assert_eq!(address_part(b"::1").unwrap(), "::1");
    assert!(address_part(NO_TEXT).is_none());
}

#[test]
fn displays_are_described() {
    let (mut ctxs, id) = setup();
    let host = linux();
    assert_eq!(krun_add_display(&mut ctxs, &plain(), id, 1, 1), Err(Errno::NotSup));
    assert_eq!(krun_add_display(&mut ctxs, &host, id, 800, 600), Ok(0));
    assert_eq!(krun_add_display(&mut ctxs, &host, id, 640, 480), Ok(1));
    assert_eq!(krun_add_display(&mut ctxs, &host, id, 1, 1), Err(Errno::NoMem));
    assert_eq!(krun_display_set_refresh_rate(&mut ctxs, &host, id, 0, 60), Ok(0));
    assert_eq!(krun_display_set_physical_size(&mut ctxs, &host, id, 0, 300, 200), Ok(0));
    let params = |ctxs: &Contexts, i: usize| match ctxs.get(id).unwrap().displays[i].edid {
        DisplayInfoEdid::Generated(params) => params,
        _ => panic!("provided"),
    };
    assert_eq!(
        params(&ctxs, 0),
        EdidParams {
            refresh_rate: Some(60),
            physical_size: Some(PhysicalSize::DimensionsMillimeters(300, 200))
        }
    );
    assert_eq!(krun_display_set_dpi(&mut ctxs, &host, id, 0, 96), Ok(0));
    assert_eq!(params(&ctxs, 0).physical_size, Some(PhysicalSize::Dpi(96)));
    assert_eq!(
        krun_display_set_refresh_rate(&mut ctxs, &host, id, 2, 60),
        Err(Errno::Inval)
    );
    assert_eq!(krun_display_set_edid(&mut ctxs, &host, id, 0, None), Err(Errno::Inval));
    assert_eq!(krun_display_set_edid(&mut ctxs, &host, id, 0, Some(&[1, 2])), Ok(0));
    // What the embedder described stays as it is.
    assert_eq!(
        krun_display_set_refresh_rate(&mut ctxs, &host, id, 0, 30),
        Err(Errno::Already)
    );
    assert_eq!(
        krun_display_set_physical_size(&mut ctxs, &host, id, 0, 1, 1),
        Err(Errno::Already)
    );
    assert_eq!(krun_display_set_dpi(&mut ctxs, &host, id, 0, 1), Err(Errno::Inval));

    assert_eq!(krun_set_gpu_options2(&mut ctxs, id, 7, 1 << 20), Ok(0));
    assert_eq!(krun_set_gpu_options(&mut ctxs, id, 8), Ok(0));
    let c = ctxs.get(id).unwrap();
    assert_eq!((c.gpu_virgl_flags, c.gpu_shm_size), (Some(8), Some(1 << 20)));
}

#[test]
fn backends_are_verified() {
    let (mut ctxs, id) = setup();
    let host = linux();
    let display = |ctxs: &mut Contexts, host: &Host, size, valid| {
        krun_set_display_backend(ctxs, host, id, size, 64, valid, 0xb)
    };
    assert_eq!(display(&mut ctxs, &plain(), 64, true), Err(Errno::NotSup));
    assert_eq!(display(&mut ctxs, &host, 63, true), Err(Errno::Inval));
    assert_eq!(display(&mut ctxs, &host, 64, false), Err(Errno::Inval));
    assert_eq!(display(&mut ctxs, &host, 64, true), Ok(0));
    let input = |ctxs: &mut Contexts, host: &Host, sizes, valid| {
        krun_add_input_device(ctxs, host, id, sizes, (8, 16), valid, 0xc)
    };
    assert_eq!(input(&mut ctxs, &plain(), Some((8, 16)), true), Err(Errno::NotSup));
    assert_eq!(input(&mut ctxs, &host, None, true), Err(Errno::Inval));
    assert_eq!(input(&mut ctxs, &host, Some((8, 15)), true), Err(Errno::Inval));
    assert_eq!(input(&mut ctxs, &host, Some((7, 16)), true), Err(Errno::Inval));
    assert_eq!(input(&mut ctxs, &host, Some((8, 16)), false), Err(Errno::Inval));
    assert_eq!(input(&mut ctxs, &host, Some((8, 16)), true), Ok(0));
    assert_eq!(krun_add_input_device_fd(&mut ctxs, &host, id, -1, 0xd), Err(Errno::Inval));
    assert_eq!(krun_add_input_device_fd(&mut ctxs, &plain(), id, 4, 0xd), Err(Errno::NotSup));
    assert_eq!(krun_add_input_device_fd(&mut ctxs, &host, id, 4, 0xd), Ok(0));
    let c = ctxs.get(id).unwrap();
    assert_eq!(c.display_backend, Some(0xb));
    assert_eq!(c.input_backends, vec![0xc, 0xd]);
}

#[test]
fn vhost_queues_are_counted() {
    let (mut ctxs, id) = setup();
    let host = linux();
    let add = |ctxs: &mut Contexts, name: Option<&[u8]>, n: u16, sizes: Option<&[u16]>| {
        krun_add_vhost_user_device(ctxs, &host, id, 26, b"/v", name, n, sizes)
    };
    assert_eq!(add(&mut ctxs, Some(b"fs"), 2, Some(&[128, 64, 32])), Ok(0));
    assert_eq!(add(&mut ctxs, Some(b""), 0, Some(&[128, 64, 0, 9])), Ok(0));
    assert_eq!(add(&mut ctxs, None, 3, None), Ok(0));
    assert_eq!(
        add(&mut ctxs, None, 0, Some(&vec![1; 65536])),
        Err(Errno::Inval)
    );
    assert_eq!(
        krun_add_vhost_user_device(&mut ctxs, &host, id, 26, b"", None, 0, None),
        Err(Errno::Inval)
    );
    assert_eq!(
        krun_add_vhost_user_device(&mut ctxs, &plain(), id, 26, b"/v", None, 0, None),
        Err(Errno::NotSup)
    );
    let devices = &ctxs.get(id).unwrap().vhost_user_devices;
    assert_eq!(devices[0].queue_sizes, vec![128, 64]);
    assert_eq!(devices[0].name.as_deref(), Some("fs"));
    assert_eq!(devices[1].queue_sizes, vec![128, 64]);
    assert_eq!(devices[1].name, None);
    assert!(devices[2].queue_sizes.is_empty());
    assert_eq!(devices[2].num_queues, 3);
}

#[test]
fn consoles_take_ports() {
    let (mut ctxs, id) = setup();
    let host = linux();
    assert_eq!(krun_add_virtio_console_default(&mut ctxs, id, 0, 1, 2), Ok(0));
    assert_eq!(krun_add_virtio_console_multiport(&mut ctxs, id), Ok(1));
    assert_eq!(
        krun_add_console_port_tty(&mut ctxs, &host, id, 1, Some(b"tty"), 3, true),
        Ok(0)
    );
    assert_eq!(krun_add_console_port_inout(&mut ctxs, id, 1, None, 4, -1), Ok(0));
    let tty = |ctxs: &mut Contexts, console, fd, terminal| {
        krun_add_console_port_tty(ctxs, &host, id, console, None, fd, terminal)
    };
    assert_eq!(tty(&mut ctxs, 1, -1, true), Err(Errno::Inval));
    assert_eq!(tty(&mut ctxs, 1, 3, false), Err(Errno::NotTty));
    assert_eq!(tty(&mut ctxs, 0, 3, true), Err(Errno::Inval));
    assert_eq!(tty(&mut ctxs, 2, 3, true), Err(Errno::Inval));
    assert_eq!(
        krun_add_console_port_inout(&mut ctxs, id, 1, Some(NO_TEXT), 4, 5),
        Err(Errno::Inval)
    );
    assert_eq!(krun_add_serial_console_default(&mut ctxs, id, 6, 7), Ok(0));
    let c = ctxs.get(id).unwrap();
    assert!(matches!(
        c.virtio_consoles[0],
        VirtioConsoleConfigMode::Autoconfigure {
            input: 0,
            output: 1,
            err: 2
        }
    ));
    match &c.virtio_consoles[1] {
        VirtioConsoleConfigMode::Explicit(ports) => {
            assert_eq!(ports.len(), 2);
            assert!(matches!(&ports[0], PortConfig::Tty { name, tty: 3 } if name == "tty"));
            assert!(matches!(
                &ports[1],
                PortConfig::InOut { name, input: 4, output: -1 } if name.is_empty()
            ));
        }
        other => panic!("{:?}", other),
    }
    assert_eq!((c.serial_consoles[0].input, c.serial_consoles[0].output), (6, 7));
}
