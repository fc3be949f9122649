//! The configuration of a microVM, as its embedder builds it up before the
//! start.

use std::collections::HashMap;

use vstd::prelude::*;

use crate::overlay::{entries_of, Entry, VirtualDirEntry};

verus! {

// ---------------------------------------------------------------------------
// What the interface runs on.
// ---------------------------------------------------------------------------

#[derive(Debug, Clone, Copy, PartialEq, Eq, Structural)]
pub enum Os {
    Linux,
    MacOs,
    Windows,
}

#[derive(Debug, Clone, Copy, PartialEq, Eq, Structural)]
pub enum Arch {
    X86_64,
    Aarch64,
    Riscv64,
}

/// What the build contains.
#[derive(Debug, Clone, Copy, PartialEq, Eq, Structural)]
pub struct Features {
    pub net: bool,
    pub blk: bool,
    pub gpu: bool,
    pub input: bool,
    pub tee: bool,
    pub amd_sev: bool,
    pub tdx: bool,
    pub aws_nitro: bool,
    pub virgl_resource_map2: bool,
    pub init_blob: bool,
    pub vhost_user: bool,
    /// Guests can be cloned.
    pub fork: bool,
}

/// What the device models know, as numbers.
#[derive(Debug, Clone, Copy, PartialEq, Eq, Structural)]
pub struct Devices {
    /// Disk image formats are numbered from 0, which is raw, to below this.
    pub image_formats: u32,
    /// Disk sync modes are numbered from 0 to below this.
    pub sync_modes: u32,
    /// The sync mode that flushes all the way to the disk.
    pub sync_full: u32,
    /// The sync mode that leaves flushing to the drive.
    pub sync_relaxed: u32,
    /// The flags of socket impersonation.
    pub tsi_flags: u32,
    /// Among them, the one for UNIX sockets.
    pub tsi_hijack_unix: u32,
    pub max_displays: usize,
}

/// The machine and the build that the interface runs on.
#[derive(Debug, Clone, Copy, PartialEq, Eq, Structural)]
pub struct Host {
    pub os: Os,
    pub arch: Arch,
    pub features: Features,
    pub devices: Devices,
}

// ---------------------------------------------------------------------------
// Parts of a configuration.
// ---------------------------------------------------------------------------

/// The raw disk image format.
pub const IMAGE_RAW: u32 = 0;

#[derive(Debug, Clone, Copy, PartialEq, Eq, Structural)]
pub enum CpuFeaturesTemplate {
    PortableV1,
}

#[derive(Debug, Clone, Copy, PartialEq, Eq, Structural)]
pub struct VmConfig {
    pub vcpu_count: Option<u8>,
    pub mem_size_mib: Option<usize>,
    pub ht_enabled: Option<bool>,
    pub cpu_template: Option<CpuFeaturesTemplate>,
}

#[derive(Debug, Clone, Copy, PartialEq, Eq, Structural)]
pub enum CacheType {
    Unsafe,
    Writeback,
}

#[derive(Debug)]
pub struct BlockDeviceConfig {
    pub block_id: String,
    pub cache_type: CacheType,
    pub disk_image_path: String,
    pub disk_image_format: u32,
    pub is_disk_read_only: bool,
    pub direct_io: bool,
    pub sync_mode: u32,
}

/// A disk, as a value.
pub struct BlockDevice {
    pub block_id: Seq<char>,
    pub cache_type: CacheType,
    pub path: Seq<char>,
    pub format: u32,
    pub read_only: bool,
    pub direct_io: bool,
    pub sync_mode: u32,
}

impl View for BlockDeviceConfig {
    type V = BlockDevice;

    open spec fn view(&self) -> BlockDevice {
        BlockDevice {
            block_id: self.block_id@,
            cache_type: self.cache_type,
            path: self.disk_image_path@,
            format: self.disk_image_format,
            read_only: self.is_disk_read_only,
            direct_io: self.direct_io,
            sync_mode: self.sync_mode,
        }
    }
}

/// The disk that becomes the guest's root.
#[derive(Debug)]
pub struct BlockRootConfig {
    pub device: String,
    pub fstype: Option<String>,
    pub options: Option<String>,
}

/// A root disk, as a value.
pub struct BlockRoot {
    pub device: Seq<char>,
    pub fstype: Option<Seq<char>>,
    pub options: Option<Seq<char>>,
}

impl View for BlockRootConfig {
    type V = BlockRoot;

    open spec fn view(&self) -> BlockRoot {
        BlockRoot {
            device: self.device@,
            fstype: text_in(self.fstype),
            options: text_in(self.options),
        }
    }
}

/// A shared directory. Without one, the device shows its virtual entries only.
#[derive(Debug)]
pub struct FsDeviceConfig {
    pub fs_id: String,
    pub shared_dir: Option<String>,
    pub shm_size: Option<usize>,
    pub read_only: bool,
    pub virtual_entries: Vec<VirtualDirEntry>,
}

/// A shared directory, as a value.
pub struct FsDevice {
    pub fs_id: Seq<char>,
    pub shared_dir: Option<Seq<char>>,
    pub shm_size: Option<usize>,
    pub read_only: bool,
    pub entries: Seq<Entry>,
}

impl View for FsDeviceConfig {
    type V = FsDevice;

    open spec fn view(&self) -> FsDevice {
        FsDevice {
            fs_id: self.fs_id@,
            shared_dir: text_in(self.shared_dir),
            shm_size: self.shm_size,
            read_only: self.read_only,
            entries: entries_of(self.virtual_entries@),
        }
    }
}

#[derive(Debug)]
pub enum VirtioNetBackend {
    UnixstreamFd(i32),
    UnixstreamPath(String),
    UnixgramFd(i32),
    /// The path, and whether the magic is sent after connecting.
    UnixgramPath(String, bool),
    Tap(String),
}

/// A network backend, as a value.
pub enum NetBackend {
    UnixstreamFd(i32),
    UnixstreamPath(Seq<char>),
    UnixgramFd(i32),
    UnixgramPath(Seq<char>, bool),
    Tap(Seq<char>),
}

impl View for VirtioNetBackend {
    type V = NetBackend;

    open spec fn view(&self) -> NetBackend {
        match self {
            VirtioNetBackend::UnixstreamFd(fd) => NetBackend::UnixstreamFd(*fd),
            VirtioNetBackend::UnixstreamPath(p) => NetBackend::UnixstreamPath(p@),
            VirtioNetBackend::UnixgramFd(fd) => NetBackend::UnixgramFd(*fd),
            VirtioNetBackend::UnixgramPath(p, magic) => NetBackend::UnixgramPath(p@, *magic),
            VirtioNetBackend::Tap(name) => NetBackend::Tap(name@),
        }
    }
}

#[derive(Debug)]
pub struct NetworkInterfaceConfig {
    pub iface_id: String,
    pub backend: VirtioNetBackend,
    pub mac: [u8; 6],
    pub features: u32,
}

/// A network interface, as a value.
pub struct NetInterface {
    pub iface_id: Seq<char>,
    pub backend: NetBackend,
    pub mac: Seq<u8>,
    pub features: u32,
}

impl View for NetworkInterfaceConfig {
    type V = NetInterface;

    open spec fn view(&self) -> NetInterface {
        NetInterface {
            iface_id: self.iface_id@,
            backend: self.backend@,
            mac: self.mac@,
            features: self.features,
        }
    }
}

/// An address: its four or sixteen bytes, the first one highest.
#[derive(Debug, Clone, Copy, PartialEq, Eq, Structural)]
pub enum IpAddr {
    V4(u32),
    V6(u128),
}

#[derive(Debug, Clone, Copy, PartialEq, Eq, Structural)]
pub enum VsockConfig {
    Disabled,
    Explicit { tsi_flags: u32 },
}

#[derive(Debug, Clone, Copy, PartialEq, Eq, Structural)]
pub enum PhysicalSize {
    Dpi(u32),
    DimensionsMillimeters(u16, u16),
}

/// What a generated display description says; what is not set is left to the
/// device.
#[derive(Debug, Clone, Copy, PartialEq, Eq, Structural)]
pub struct EdidParams {
    pub refresh_rate: Option<u32>,
    pub physical_size: Option<PhysicalSize>,
}

#[derive(Debug)]
pub enum DisplayInfoEdid {
    Generated(EdidParams),
    Provided(Vec<u8>),
}

#[derive(Debug)]
pub struct DisplayInfo {
    pub width: u32,
    pub height: u32,
    pub edid: DisplayInfoEdid,
}

/// A display description, as a value.
pub enum Edid {
    Generated(EdidParams),
    Provided(Seq<u8>),
}

/// A display, as a value.
pub struct Display {
    pub width: u32,
    pub height: u32,
    pub edid: Edid,
}

impl View for DisplayInfo {
    type V = Display;

    open spec fn view(&self) -> Display {
        Display {
            width: self.width,
            height: self.height,
            edid: match self.edid {
                DisplayInfoEdid::Generated(params) => Edid::Generated(params),
                DisplayInfoEdid::Provided(blob) => Edid::Provided(blob@),
            },
        }
    }
}

#[derive(Debug)]
pub struct VhostUserDeviceConfig {
    pub device_type: u32,
    pub socket_path: String,
    pub name: Option<String>,
    pub num_queues: u16,
    pub queue_sizes: Vec<u16>,
}

/// A device served by another process, as a value.
pub struct VhostUserDevice {
    pub device_type: u32,
    pub socket_path: Seq<char>,
    pub name: Option<Seq<char>>,
    pub num_queues: u16,
    pub queue_sizes: Seq<u16>,
}

impl View for VhostUserDeviceConfig {
    type V = VhostUserDevice;

    open spec fn view(&self) -> VhostUserDevice {
        VhostUserDevice {
            device_type: self.device_type,
            socket_path: self.socket_path@,
            name: text_in(self.name),
            num_queues: self.num_queues,
            queue_sizes: self.queue_sizes@,
        }
    }
}

#[derive(Debug, Clone, Copy, PartialEq, Eq, Structural)]
pub enum KernelFormat {
    Raw,
    Elf,
    PeGz,
    ImageBz2,
    ImageGz,
    ImageZstd,
}

#[derive(Debug)]
pub struct ExternalKernel {
    pub path: String,
    pub format: KernelFormat,
    pub initramfs_path: Option<String>,
    pub initramfs_size: u64,
    pub cmdline: Option<String>,
}

/// A kernel in a file, as a value.
pub struct Kernel {
    pub path: Seq<char>,
    pub format: KernelFormat,
    pub initramfs_path: Option<Seq<char>>,
    pub initramfs_size: u64,
    pub cmdline: Option<Seq<char>>,
}

impl View for ExternalKernel {
    type V = Kernel;

    open spec fn view(&self) -> Kernel {
        Kernel {
            path: self.path@,
            format: self.format,
            initramfs_path: text_in(self.initramfs_path),
            initramfs_size: self.initramfs_size,
            cmdline: text_in(self.cmdline),
        }
    }
}

/// A kernel in this process's memory.
#[derive(Debug, Clone, Copy, PartialEq, Eq, Structural)]
pub struct KernelBundle {
    pub host_addr: u64,
    pub guest_addr: u64,
    pub entry_addr: u64,
    pub size: usize,
}

/// A port of a console. Descriptors are file descriptors, or the values of
/// handles where the system has those.
#[derive(Debug)]
pub enum PortConfig {
    Tty { name: String, tty: i64 },
    InOut { name: String, input: i64, output: i64 },
}

/// A console port, as a value.
pub enum Port {
    Tty { name: Seq<char>, tty: i64 },
    InOut { name: Seq<char>, input: i64, output: i64 },
}

impl View for PortConfig {
    type V = Port;

    open spec fn view(&self) -> Port {
        match self {
            PortConfig::Tty { name, tty } => Port::Tty { name: name@, tty: *tty },
            PortConfig::InOut { name, input, output } => Port::InOut {
                name: name@,
                input: *input,
                output: *output,
            },
        }
    }
}

#[derive(Debug)]
pub enum VirtioConsoleConfigMode {
    Autoconfigure { input: i64, output: i64, err: i64 },
    Explicit(Vec<PortConfig>),
}

/// A console, as a value.
pub enum Console {
    Autoconfigure { input: i64, output: i64, err: i64 },
    Explicit(Seq<Port>),
}

impl View for VirtioConsoleConfigMode {
    type V = Console;

    open spec fn view(&self) -> Console {
        match self {
            VirtioConsoleConfigMode::Autoconfigure { input, output, err } => {
                Console::Autoconfigure { input: *input, output: *output, err: *err }
            },
            VirtioConsoleConfigMode::Explicit(ports) => Console::Explicit(
                ports@.map_values(|p: PortConfig| p@),
            ),
        }
    }
}

#[derive(Debug, Clone, Copy, PartialEq, Eq, Structural)]
pub struct SerialConsoleConfig {
    pub input: i64,
    pub output: i64,
}

// ---------------------------------------------------------------------------
// The configuration.
// ---------------------------------------------------------------------------

/// The configuration of one microVM.
#[derive(Debug)]
pub struct ContextConfig {
    /// Whether the bundled kernel can be had.
    pub krunfw: bool,
    pub shutdown_efd: Option<i64>,
    pub vm_config: VmConfig,
    pub workdir: Option<String>,
    pub exec_path: Option<String>,
    pub env: Option<String>,
    pub args: Option<String>,
    pub rlimits: Option<String>,
    pub net_index: u8,
    /// Host ports by guest port.
    pub tsi_port_map: Option<HashMap<u16, u16>>,
    pub egress_cidrs: Option<Vec<(IpAddr, u8)>>,
    pub egress_hosts: Option<Vec<String>>,
    pub egress_resolvers: Option<Vec<IpAddr>>,
    pub control_socket_path: Option<String>,
    pub vsock_config: VsockConfig,
    pub block_cfgs: Vec<BlockDeviceConfig>,
    pub block_root: Option<BlockRootConfig>,
    pub tee_config_file: Option<String>,
    /// Paths by port, and whether the host listens.
    pub unix_ipc_port_map: Option<HashMap<u32, (String, bool)>>,
    pub gpu_virgl_flags: Option<u32>,
    pub gpu_shm_size: Option<usize>,
    pub nitro_console_output: Option<String>,
    pub vmm_uid: Option<u32>,
    pub vmm_gid: Option<u32>,
    pub disable_implicit_init: bool,
    /// Boot as a clone from this directory.
    pub snapshot_dir: Option<String>,
    pub fs: Vec<FsDeviceConfig>,
    pub net: Vec<NetworkInterfaceConfig>,
    pub dhcp_client: bool,
    pub displays: Vec<DisplayInfo>,
    /// The embedder's number for its display backend.
    pub display_backend: Option<u64>,
    /// The embedder's numbers for its input backends.
    pub input_backends: Vec<u64>,
    pub vhost_user_devices: Vec<VhostUserDeviceConfig>,
    pub nested_enabled: bool,
    pub split_irqchip: bool,
    pub smbios_oem_strings: Option<Vec<String>>,
    pub external_kernel: Option<ExternalKernel>,
    pub kernel_bundle: Option<KernelBundle>,
    pub firmware_config: Option<String>,
    pub virtio_consoles: Vec<VirtioConsoleConfigMode>,
    pub serial_consoles: Vec<SerialConsoleConfig>,
    pub kernel_console: Option<String>,
}

/// A configuration, as a value.
pub struct Settings {
    pub krunfw: bool,
    pub shutdown_efd: Option<i64>,
    pub vm_config: VmConfig,
    pub workdir: Option<Seq<char>>,
    pub exec_path: Option<Seq<char>>,
    pub env: Option<Seq<char>>,
    pub args: Option<Seq<char>>,
    pub rlimits: Option<Seq<char>>,
    pub net_index: u8,
    pub tsi_port_map: Option<Map<u16, u16>>,
    pub egress_cidrs: Option<Seq<(IpAddr, u8)>>,
    pub egress_hosts: Option<Seq<Seq<char>>>,
    pub egress_resolvers: Option<Seq<IpAddr>>,
    pub control_socket_path: Option<Seq<char>>,
    pub vsock_config: VsockConfig,
    pub block_cfgs: Seq<BlockDevice>,
    pub block_root: Option<BlockRoot>,
    pub tee_config_file: Option<Seq<char>>,
    pub unix_ipc_port_map: Option<Map<u32, (Seq<char>, bool)>>,
    pub gpu_virgl_flags: Option<u32>,
    pub gpu_shm_size: Option<usize>,
    pub nitro_console_output: Option<Seq<char>>,
    pub vmm_uid: Option<u32>,
    pub vmm_gid: Option<u32>,
    pub disable_implicit_init: bool,
    pub snapshot_dir: Option<Seq<char>>,
    pub fs: Seq<FsDevice>,
    pub net: Seq<NetInterface>,
    pub dhcp_client: bool,
    pub displays: Seq<Display>,
    pub display_backend: Option<u64>,
    pub input_backends: Seq<u64>,
    pub vhost_user_devices: Seq<VhostUserDevice>,
    pub nested_enabled: bool,
    pub split_irqchip: bool,
    pub smbios_oem_strings: Option<Seq<Seq<char>>>,
    pub external_kernel: Option<Kernel>,
    pub kernel_bundle: Option<KernelBundle>,
    pub firmware_config: Option<Seq<char>>,
    pub virtio_consoles: Seq<Console>,
    pub serial_consoles: Seq<SerialConsoleConfig>,
    pub kernel_console: Option<Seq<char>>,
}

/// The text, where there is one.
pub open spec fn text_in(o: Option<String>) -> Option<Seq<char>> {
    match o {
        Some(s) => Some(s@),
        None => None,
    }
}

/// The texts.
pub open spec fn texts_in(v: Seq<String>) -> Seq<Seq<char>> {
    v.map_values(|s: String| s@)
}

impl View for ContextConfig {
    type V = Settings;

    open spec fn view(&self) -> Settings {
        Settings {
            krunfw: self.krunfw,
            shutdown_efd: self.shutdown_efd,
            vm_config: self.vm_config,
            workdir: text_in(self.workdir),
            exec_path: text_in(self.exec_path),
            env: text_in(self.env),
            args: text_in(self.args),
            rlimits: text_in(self.rlimits),
            net_index: self.net_index,
            tsi_port_map: match self.tsi_port_map {
                Some(m) => Some(m@),
                None => None,
            },
            egress_cidrs: match self.egress_cidrs {
                Some(v) => Some(v@),
                None => None,
            },
            egress_hosts: match self.egress_hosts {
                Some(v) => Some(texts_in(v@)),
                None => None,
            },
            egress_resolvers: match self.egress_resolvers {
                Some(v) => Some(v@),
                None => None,
            },
            control_socket_path: text_in(self.control_socket_path),
            vsock_config: self.vsock_config,
            block_cfgs: self.block_cfgs@.map_values(|b: BlockDeviceConfig| b@),
            block_root: match self.block_root {
                Some(b) => Some(b@),
                None => None,
            },
            tee_config_file: text_in(self.tee_config_file),
            unix_ipc_port_map: match self.unix_ipc_port_map {
                Some(m) => Some(m@.map_values(|v: (String, bool)| (v.0@, v.1))),
                None => None,
            },
            gpu_virgl_flags: self.gpu_virgl_flags,
            gpu_shm_size: self.gpu_shm_size,
            nitro_console_output: text_in(self.nitro_console_output),
            vmm_uid: self.vmm_uid,
            vmm_gid: self.vmm_gid,
            disable_implicit_init: self.disable_implicit_init,
            snapshot_dir: text_in(self.snapshot_dir),
            fs: self.fs@.map_values(|f: FsDeviceConfig| f@),
            net: self.net@.map_values(|n: NetworkInterfaceConfig| n@),
            dhcp_client: self.dhcp_client,
            displays: self.displays@.map_values(|d: DisplayInfo| d@),
            display_backend: self.display_backend,
            input_backends: self.input_backends@,
            vhost_user_devices: self.vhost_user_devices@.map_values(
                |d: VhostUserDeviceConfig| d@,
            ),
            nested_enabled: self.nested_enabled,
            split_irqchip: self.split_irqchip,
            smbios_oem_strings: match self.smbios_oem_strings {
                Some(v) => Some(texts_in(v@)),
                None => None,
            },
            external_kernel: match self.external_kernel {
                Some(k) => Some(k@),
                None => None,
            },
            kernel_bundle: self.kernel_bundle,
            firmware_config: text_in(self.firmware_config),
            virtio_consoles: self.virtio_consoles@.map_values(|c: VirtioConsoleConfigMode| c@),
            serial_consoles: self.serial_consoles@,
            kernel_console: text_in(self.kernel_console),
        }
    }
}

/// A configuration in which nothing has been set.
pub open spec fn unset(krunfw: bool, shutdown_efd: Option<i64>, vm_config: VmConfig) -> Settings {
    Settings {
        krunfw,
        shutdown_efd,
        vm_config,
        workdir: None,
        exec_path: None,
        env: None,
        args: None,
        rlimits: None,
        net_index: 0,
        tsi_port_map: None,
        egress_cidrs: None,
        egress_hosts: None,
        egress_resolvers: None,
        control_socket_path: None,
        vsock_config: VsockConfig::Disabled,
        block_cfgs: Seq::empty(),
        block_root: None,
        tee_config_file: None,
        unix_ipc_port_map: None,
        gpu_virgl_flags: None,
        gpu_shm_size: None,
        nitro_console_output: None,
        vmm_uid: None,
        vmm_gid: None,
        disable_implicit_init: false,
        snapshot_dir: None,
        fs: Seq::empty(),
        net: Seq::empty(),
        dhcp_client: false,
        displays: Seq::empty(),
        display_backend: None,
        input_backends: Seq::empty(),
        vhost_user_devices: Seq::empty(),
        nested_enabled: false,
        split_irqchip: false,
        smbios_oem_strings: None,
        external_kernel: None,
        kernel_bundle: None,
        firmware_config: None,
        virtio_consoles: Seq::empty(),
        serial_consoles: Seq::empty(),
        kernel_console: None,
    }
}

impl ContextConfig {
    /// A configuration in which nothing has been set.
    pub fn new(krunfw: bool, shutdown_efd: Option<i64>, vm_config: VmConfig) -> (r: Self)
        ensures
            r@ == unset(krunfw, shutdown_efd, vm_config),
    {
        let r = ContextConfig {
            krunfw,
            shutdown_efd,
            vm_config,
            workdir: None,
            exec_path: None,
            env: None,
            args: None,
            rlimits: None,
            net_index: 0,
            tsi_port_map: None,
            egress_cidrs: None,
            egress_hosts: None,
            egress_resolvers: None,
            control_socket_path: None,
            vsock_config: VsockConfig::Disabled,
            block_cfgs: Vec::new(),
            block_root: None,
            tee_config_file: None,
            unix_ipc_port_map: None,
            gpu_virgl_flags: None,
            gpu_shm_size: None,
            nitro_console_output: None,
            vmm_uid: None,
            vmm_gid: None,
            disable_implicit_init: false,
            snapshot_dir: None,
            fs: Vec::new(),
            net: Vec::new(),
            dhcp_client: false,
            displays: Vec::new(),
            display_backend: None,
            input_backends: Vec::new(),
            vhost_user_devices: Vec::new(),
            nested_enabled: false,
            split_irqchip: false,
            smbios_oem_strings: None,
            external_kernel: None,
            kernel_bundle: None,
            firmware_config: None,
            virtio_consoles: Vec::new(),
            serial_consoles: Vec::new(),
            kernel_console: None,
        };
        proof {
            let e = unset(krunfw, shutdown_efd, vm_config);
            assert(r@.block_cfgs =~= e.block_cfgs);
            assert(r@.fs =~= e.fs);
            assert(r@.net =~= e.net);
            assert(r@.displays =~= e.displays);
            assert(r@.vhost_user_devices =~= e.vhost_user_devices);
            assert(r@.virtio_consoles =~= e.virtio_consoles);
        }
        r
    }
}

} // verus!
