use krun::config::{Arch, CacheType, Devices, Features, Host, IpAddr, Os, VmConfig};
use krun::contexts::{krun_create_ctx, krun_free_ctx, Contexts};
use krun::egress::krun_set_egress_policy;
use krun::errno::{Errno, Numbers};
use krun::guest::{krun_set_exec, krun_set_rlimits, krun_set_workdir};
use krun::logging::{
    krun_init_log, krun_set_log_level, last_error_text, log_level_to_filter_str, LastError,
    LogTarget,
};
use krun::machine::{
    krun_set_control_socket, krun_set_firmware, krun_set_snapshot, krun_set_tee_config_file,
    krun_setgid, krun_setuid, krun_split_irqchip,
};
use krun::net::{krun_add_net_unixgram, krun_add_net_unixstream};
use krun::nitro::{krun_set_console_output, krun_start_enter_nitro, EnclaveFault, NitroEnclave};
use krun::peripherals::krun_set_gpu_options2;
use krun::sockets::{krun_add_vsock, krun_set_port_map};
use krun::start::{
    kernel_cmdline, krun_start_enter, process_name, vsock_device, GuestRamRegions, StartStep,
};
use krun::storage::{krun_add_disk, krun_add_virtiofs};

fn host() -> Host {
    Host {
        os: Os::Linux,
        arch: Arch::X86_64,
        features: Features {
            net: true,
            blk: true,
            gpu: false,
            input: false,
            tee: false,
            amd_sev: false,
            tdx: false,
            aws_nitro: false,
            virgl_resource_map2: false,
            init_blob: false,
            vhost_user: false,
            fork: true,
        },
        devices: Devices {
            image_formats: 1,
            sync_modes: 1,
            sync_full: 0,
            sync_relaxed: 0,
            tsi_flags: 1,
            tsi_hijack_unix: 2,
            max_displays: 1,
        },
    }
}

fn context(krunfw: bool) -> (Contexts, u32) {
    let mut ctxs = Contexts::new();
    let id = krun_create_ctx(
        &mut ctxs,
        krunfw,
        None,
        VmConfig {
            vcpu_count: Some(2),
            mem_size_mib: Some(512),
            ht_enabled: Some(false),
            cpu_template: None,
        },
    );
    (ctxs, id as u32)
}

#[test]
fn a_start_goes_through_its_steps() {
    let (mut ctxs, id) = context(true);
    let start = krun_start_enter(&mut ctxs, &mut LastError::new(), &host(), id, Ok(())).unwrap();
    assert_eq!(
        start.steps,
        vec![
            StartStep::LoadPayload,
            StartStep::SetKernelCmdline,
            StartStep::Build,
            StartStep::PublishRam,
            StartStep::Run
        ]
    );
    // The context is gone.
    let mut last = LastError::new();
    last.set("an earlier failure");
    let gone = krun_start_enter(&mut ctxs, &mut last, &host(), id, Ok(())).unwrap_err();
    assert_eq!(gone, Errno::NoEnt);
    assert_eq!(last.text(), None);
}

#[test]
fn privileges_are_dropped_before_the_build() {
    let (mut ctxs, id) = context(false);
    krun_set_firmware(&mut ctxs, id, b"/fw").unwrap();
    krun_add_disk(&mut ctxs, &host(), id, b"a", b"/a", CacheType::Unsafe, false).unwrap();
    krun_add_vsock(&mut ctxs, &host(), id, 1).unwrap();
    krun_set_gpu_options2(&mut ctxs, id, 3, 4096).unwrap();
    krun_setuid(&mut ctxs, id, 10).unwrap();
    krun_setgid(&mut ctxs, id, 20).unwrap();
    krun_set_snapshot(&mut ctxs, id, Some(b"/snap")).unwrap();
    krun_set_control_socket(&mut ctxs, id, Some(b"/ctl")).unwrap();
    krun_split_irqchip(&mut ctxs, &host(), id, true).unwrap();
    let start = krun_start_enter(&mut ctxs, &mut LastError::new(), &host(), id, Ok(())).unwrap();
    assert_eq!(
        start.steps,
        vec![
            StartStep::AddBlock(0),
            StartStep::SetKernelCmdline,
            StartStep::SetVsock,
            StartStep::SetVirglFlags(3),
            StartStep::SetGpuShm(4096),
            StartStep::SetGid(20),
            StartStep::SetUid(10),
            StartStep::Restore,
            StartStep::Build,
            StartStep::PublishRam,
            StartStep::StartControl,
            StartStep::StartWorker,
            StartStep::Run
        ]
    );
}

#[test]
fn platforms_start_differently() {
    let (mut ctxs, id) = context(false);
    let start = krun_start_enter(&mut ctxs, &mut LastError::new(), &host(), id, Ok(())).unwrap();
    assert_eq!(start.steps[0], StartStep::Fail(Errno::NoEnt));

    let (mut ctxs, id) = context(true);
    krun_setuid(&mut ctxs, id, 10).unwrap();
    let windows = Host {
        os: Os::Windows,
        ..host()
    };
    let start = krun_start_enter(&mut ctxs, &mut LastError::new(), &windows, id, Ok(())).unwrap();
    assert!(!start.steps.contains(&StartStep::SetUid(10)));
    assert!(start.steps.contains(&StartStep::StartWorker));

    let mut tee = host();
    tee.features.tee = true;
    tee.features.amd_sev = true;
    let (mut ctxs, id) = context(true);
    let start = krun_start_enter(&mut ctxs, &mut LastError::new(), &tee, id, Ok(())).unwrap();
    assert!(start.steps.contains(&StartStep::Fail(Errno::Inval)));
    let (mut ctxs, id) = context(true);
    krun_set_tee_config_file(&mut ctxs, id, b"/tee").unwrap();
    let start = krun_start_enter(&mut ctxs, &mut LastError::new(), &tee, id, Ok(())).unwrap();
    assert!(start.steps.contains(&StartStep::SetTeeConfig));
    assert!(start.steps.contains(&StartStep::StartWorker));

    let (mut ctxs, id) = context(true);
    let mut last = LastError::new();
    let error = Err("EMFILE".to_string());
    let refused = krun_start_enter(&mut ctxs, &mut last, &host(), id, error).unwrap_err();
    assert_eq!(refused, Errno::Inval);
    assert_eq!(last.text(), Some("unable to create event manager: EMFILE"));
    assert!(ctxs.get(id).is_some());
}

#[test]
fn failed_steps_have_their_answer() {
    let mut last = LastError::new();
    let restore = StartStep::Restore.failure(&mut last, Some("/snap"), "gone", 0);
    assert_eq!(restore, Errno::Inval);
    assert_eq!(last.text(), Some("restore checkpoint from /snap: gone"));
    assert_eq!(StartStep::Build.failure(&mut last, None, "no KVM", 0), Errno::Inval);
    assert_eq!(last.text(), Some("build microVM: no KVM"));
    assert_eq!(StartStep::Build.failure(&mut last, None, "a\0b", 0), Errno::Inval);
    assert_eq!(last.text(), Some("libkrun error contained an interior NUL byte"));
    last.clear();
    assert_eq!(StartStep::LoadPayload.failure(&mut last, None, "", 0), Errno::NoEnt);
    assert_eq!(StartStep::SetGid(1).failure(&mut last, None, "", 13), Errno::Os(13));
    let missing = StartStep::Fail(Errno::NoEnt);
    assert_eq!(missing.failure(&mut last, None, "", 0), Errno::NoEnt);
    assert_eq!(StartStep::StartControl.failure(&mut last, None, "busy", 0), Errno::Inval);
    assert_eq!(last.text(), None);
}

#[test]
fn the_kernel_is_told_of_the_guest() {
    let (mut ctxs, id) = context(true);
    let c = kernel_cmdline(ctxs.get(id).unwrap(), "reboot=k");
    assert_eq!(c.prolog, "reboot=k init=/init.krun");
    assert_eq!(c.krun_env, "     ");
    assert_eq!(c.epilog, " -- ");
    krun_set_exec(&mut ctxs, id, b"/bin/sh", Some(&[b"-l".to_vec()]), Some(&[]), &[]).unwrap();
    krun_set_workdir(&mut ctxs, id, b"/w").unwrap();
    krun_set_rlimits(&mut ctxs, id, Some(&[b"1=2:3".to_vec()])).unwrap();
    let c = kernel_cmdline(ctxs.get(id).unwrap(), "reboot=k");
    assert_eq!(
        c.krun_env,
        " KRUN_INIT=/bin/sh KRUN_WORKDIR=/w  KRUN_RLIMITS=\"1=2:3\" "
    );
    assert_eq!(c.epilog, " -- \"-l\"");
    assert_eq!(process_name(Some("box")), "VM:box");
    assert_eq!(process_name(None), "libkrun VM");
}

#[test]
fn the_socket_device_takes_the_policy() {
    let (mut ctxs, id) = context(true);
    krun_add_vsock(&mut ctxs, &host(), id, 1).unwrap();
    krun_set_port_map(&mut ctxs, id, &[b"8080:80".to_vec()]).unwrap();
    let ip = IpAddr::V4(1);
    let cidr = (b"0.0.0.1".to_vec(), Some(ip));
    krun_set_egress_policy(&mut ctxs, id, Some(&[cidr]), None, None).unwrap();
    let mut start = krun_start_enter(&mut ctxs, &mut LastError::new(), &host(), id, Ok(())).unwrap();
    let device = vsock_device(&mut start.config).unwrap();
    assert_eq!(device.vsock_id, "vsock0");
    assert_eq!(device.guest_cid, 3);
    assert_eq!(device.tsi_flags, 1);
    assert_eq!(device.host_port_map.unwrap()[&80], 8080);
    assert_eq!(device.egress_cidrs, Some(vec![(ip, 32)]));
    assert_eq!(start.config.egress_cidrs, None);

    let (mut ctxs, id) = context(true);
    let mut start = krun_start_enter(&mut ctxs, &mut LastError::new(), &host(), id, Ok(())).unwrap();
    assert!(vsock_device(&mut start.config).is_none());
}

#[test]
fn guest_ram_is_published() {
    let mut ram = GuestRamRegions::new();
    assert_eq!(ram.krun_get_guest_ram(0, true, true, 8), Err(Errno::NoEnt));
    ram.publish(0, vec![]);
    assert_eq!(ram.krun_get_guest_ram(0, true, true, 8), Err(Errno::NoEnt));
    ram.publish(0, vec![(0, 0x7f00, 0x1000), (0x8000, 0x8f00, 0x2000)]);
    assert_eq!(ram.krun_get_guest_ram(0, false, true, 8), Err(Errno::Inval));
    assert_eq!(ram.krun_get_guest_ram(0, true, false, 0), Ok((2, vec![])));
    assert_eq!(
        ram.krun_get_guest_ram(0, true, true, 1),
        Ok((2, vec![0, 0x7f00, 0x1000]))
    );
    assert_eq!(
        ram.krun_get_guest_ram(0, true, true, 8),
        Ok((2, vec![0, 0x7f00, 0x1000, 0x8000, 0x8f00, 0x2000]))
    );
}

#[test]
fn enclaves_need_all_their_parts() {
    let (mut ctxs, id) = context(true);
    let fault = |ctxs: &Contexts| NitroEnclave::try_from(ctxs.get(id).unwrap(), false).unwrap_err();
    assert_eq!(fault(&ctxs), EnclaveFault::NoRootfs);
    krun_add_virtiofs(&mut ctxs, id, None, Some(b"r"), Some(b"/rootfs")).unwrap();
    assert_eq!(fault(&ctxs), EnclaveFault::NoExecPath);
    krun_set_exec(&mut ctxs, id, b"/bin/app", None, Some(&[]), &[]).unwrap();
    assert_eq!(fault(&ctxs), EnclaveFault::NoOutput);
    krun_add_net_unixgram(&mut ctxs, &host(), id, None, 4, [0; 6], 0, 0).unwrap();
    assert_eq!(fault(&ctxs), EnclaveFault::NetBackend);
    krun_add_net_unixstream(&mut ctxs, &host(), id, None, 4, [0; 6], 0, 0).unwrap();
    assert_eq!(fault(&ctxs), EnclaveFault::TooManyInterfaces);
    assert_eq!(EnclaveFault::NoRootfs.errno(), Errno::Inval);
    assert_eq!(EnclaveFault::NetBackend.errno(), Errno::Inval);

    let (mut ctxs, id) = context(true);
    krun_add_virtiofs(&mut ctxs, id, None, Some(b"r"), Some(b"/rootfs")).unwrap();
    krun_set_exec(&mut ctxs, id, b"/bin/app", None, Some(&[b"A=1".to_vec()]), &[]).unwrap();
    krun_add_net_unixstream(&mut ctxs, &host(), id, None, 4, [0; 6], 0, 0).unwrap();
    assert_eq!(krun_set_console_output(&mut ctxs, id, b"/out"), Ok(0));
    assert_eq!(krun_set_console_output(&mut ctxs, id, b"/out"), Err(Errno::Inval));
    let enclave = krun_start_enter_nitro(&mut ctxs, id, true).unwrap();
    assert_eq!((enclave.mem_size_mib, enclave.vcpus), (512, 2));
    assert_eq!(enclave.rootfs.as_deref(), Some("/rootfs"));
    assert_eq!(enclave.exec_path, "/bin/app");
    assert_eq!(enclave.exec_env, "\"A=1\"");
    assert_eq!(enclave.exec_args, "");
    assert_eq!(enclave.net_unixfd, Some(4));
    assert_eq!(enclave.output_path, "/out");
    assert!(enclave.debug);
    assert_eq!(krun_start_enter_nitro(&mut ctxs, id, true).unwrap_err(), Errno::NoEnt);
}

#[test]
fn logs_go_where_they_are_sent() {
    let filters: Vec<&str> = (0..7).map(log_level_to_filter_str).collect();
    assert_eq!(
        filters,
        vec!["off", "error", "warn", "info", "debug", "trace", "trace"]
    );
    let log = |target, style, options| krun_init_log(&host(), target, 4, style, options);
    let setup = log(-1, 0, 0).unwrap();
    assert_eq!(setup.target, LogTarget::Standard);
    assert_eq!((setup.filter, setup.write_style), ("debug", "auto"));
    assert!(setup.use_env && setup.debug);
    assert_eq!(log(1, 1, 1).unwrap().target, LogTarget::Stdout);
    assert_eq!(log(1, 1, 1).unwrap().write_style, "always");
    assert!(!log(1, 1, 1).unwrap().use_env);
    assert_eq!(log(2, 2, 0).unwrap().target, LogTarget::Stderr);
    assert_eq!(log(2, 2, 0).unwrap().write_style, "never");
    assert_eq!(log(9, 0, 0).unwrap().target, LogTarget::Pipe(9));
    for (target, style, options) in [(-2, 0, 0), (0, 0, 0), (1, 3, 0), (1, 0, 2)] {
        assert_eq!(log(target, style, options).unwrap_err(), Errno::Inval);
    }
    let windows = Host {
        os: Os::Windows,
        ..host()
    };
    assert_eq!(krun_init_log(&windows, 9, 1, 0, 0).unwrap_err(), Errno::Inval);
    assert!(krun_set_log_level(4).debug);
    assert!(!krun_set_log_level(5).debug);
    assert_eq!(last_error_text("bad"), "bad");
    assert_eq!(
        last_error_text("a\0b"),
        "libkrun error contained an interior NUL byte"
    );
}

#[test]
fn failures_answer_with_negative_numbers() {
    let numbers = Numbers {
        inval: 22,
        noent: 2,
        nodev: 19,
        exist: 17,
        notsup: 95,
        opnotsupp: 95,
        nomem: 12,
        already: 114,
        notty: 25,
        notdir: 20,
        io: 5,
    };
    assert_eq!(Errno::Inval.answer(&numbers), -22);
    assert_eq!(Errno::NoEnt.answer(&numbers), -2);
    assert_eq!(Errno::NoDev.answer(&numbers), -19);
    assert_eq!(Errno::Exist.answer(&numbers), -17);
    assert_eq!(Errno::NotSup.answer(&numbers), -95);
    assert_eq!(Errno::OpNotSupp.answer(&numbers), -95);
    assert_eq!(Errno::NoMem.answer(&numbers), -12);
    assert_eq!(Errno::Already.answer(&numbers), -114);
    assert_eq!(Errno::NotTty.answer(&numbers), -25);
    assert_eq!(Errno::NotDir.answer(&numbers), -20);
    assert_eq!(Errno::Io.answer(&numbers), -5);
    assert_eq!(Errno::Os(13).answer(&numbers), -13);
    // Every step's failure is one.
    let (mut ctxs, id) = context(true);
    let start = krun_start_enter(&mut ctxs, &mut LastError::new(), &host(), id, Ok(())).unwrap();
    assert_eq!(start.steps.last(), Some(&StartStep::Run));
    for step in start.steps {
        let errno = step.failure(&mut LastError::new(), None, "", 1);
        assert!(errno.answer(&numbers) < 0);
    }
    assert_eq!(krun_free_ctx(&mut ctxs, id), Err(Errno::NoEnt));
}
