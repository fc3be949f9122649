//! Shared directories and disks.

use vstd::prelude::*;
use vstd::slice::slice_to_vec;
use vstd::string::StringExecFns;

use crate::config::{
    text_in, BlockDevice, BlockDeviceConfig, BlockRoot, BlockRootConfig, CacheType, ContextConfig,
    FsDevice,
    FsDeviceConfig, Host, Os, Settings, IMAGE_RAW,
};
use crate::contexts::{changed, put, refused, utf8, utf8_text, Contexts, Ctxs, Outcome};
use crate::errno::Errno;
use crate::machine::{bytes_in, optional, optional_text};
use crate::overlay::{
    add_overlay_entry, entries_of, entry_of, overlaid, Content, Entry, VirtualDirEntry,
    VirtualEntry, VirtualEntryContent,
};
use crate::text::same;

verus! {

/// The mode of the entries that the monitor makes itself: rwxr-xr-x.
pub const DEFAULT_MODE: u32 = 0o755;

/// The name that the guest's root device has.
pub open spec fn root_tag() -> Seq<char> {
    "/dev/root"@
}

/// The guest's init, which can be opened once.
pub open spec fn init_entry(payload: Seq<u8>) -> Entry {
    Entry {
        name: "init.krun"@,
        mode: DEFAULT_MODE,
        one_shot: true,
        content: Content::File(payload),
    }
}

/// An empty directory.
pub open spec fn empty_dir(name: Seq<char>) -> Entry {
    Entry { name, mode: DEFAULT_MODE, one_shot: false, content: Content::Dir(Seq::empty()) }
}

fn init_virtual_entry(payload: &[u8]) -> (r: VirtualDirEntry)
    ensures
        entry_of(r.name@, r.entry) == init_entry(payload@),
{
    VirtualDirEntry {
        name: String::from_str("init.krun"),
        entry: VirtualEntry {
            mode: DEFAULT_MODE,
            one_shot: true,
            content: VirtualEntryContent::File { data: slice_to_vec(payload) },
        },
    }
}

fn push_dir(entries: &mut Vec<VirtualDirEntry>, name: &str)
    ensures
        entries_of(final(entries)@) == entries_of(old(entries)@).push(empty_dir(name@)),
{
    let children: Vec<VirtualDirEntry> = Vec::new();
    assert(entries_of(children@) =~= Seq::<Entry>::empty());
    entries.push(
        VirtualDirEntry {
            name: String::from_str(name),
            entry: VirtualEntry {
                mode: DEFAULT_MODE,
                one_shot: false,
                content: VirtualEntryContent::Dir { children },
            },
        },
    );
    proof {
        let e = entries@.last();
        assert(entries@.drop_last() =~= old(entries)@);
        assert(e.entry.content == VirtualEntryContent::Dir { children });
        assert(entry_of(e.name@, e.entry) == empty_dir(name@));
    }
}

// ---------------------------------------------------------------------------
// Shared directories.
// ---------------------------------------------------------------------------

/// The entries that a shared directory starts with: the root shows the init
/// that the build contains, unless that was switched off.
pub open spec fn implicit_entries(s: Settings, tag: Seq<char>, init: Option<Seq<u8>>) -> Seq<
    Entry,
> {
    match init {
        Some(payload) => if tag == root_tag() && !s.disable_implicit_init {
            seq![init_entry(payload)]
        } else {
            Seq::empty()
        },
        None => Seq::empty(),
    }
}

fn implicit(c: &ContextConfig, tag: &str, init: Option<&[u8]>) -> (r: Vec<VirtualDirEntry>)
    ensures
        entries_of(r@) == implicit_entries(c@, tag@, bytes_in(init)),
{
    let mut entries: Vec<VirtualDirEntry> = Vec::new();
    assert(entries_of(entries@) =~= Seq::<Entry>::empty());
    if let Some(payload) = init {
        if same(tag, "/dev/root") && !c.disable_implicit_init {
            let e = init_virtual_entry(payload);
            entries.push(e);
            assert(entries@.drop_last() =~= Seq::<VirtualDirEntry>::empty());
            assert(entries_of(entries@) =~= seq![init_entry(payload@)]);
        }
    }
    entries
}

fn add_fs(c: &mut ContextConfig, device: FsDeviceConfig)
    ensures
        final(c)@ == (Settings { fs: old(c)@.fs.push(device@), ..old(c)@ }),
{
    c.fs.push(device);
    assert(c@.fs =~= old(c)@.fs.push(device@));
}

pub open spec fn virtiofs_added(
    c: Ctxs,
    id: u32,
    init: Option<Seq<u8>>,
    tag: Option<Seq<u8>>,
    path: Option<Seq<u8>>,
    shm_size: u64,
    read_only: bool,
) -> Outcome {
    match (tag, optional_text(path)) {
        (Some(tag), Some(shared_dir)) => match utf8_text(tag) {
            Some(fs_id) => if shm_size > usize::MAX {
                refused(c, Errno::Inval)
            } else {
                put(
                    c,
                    id,
                    |s: Settings|
                        Settings {
                            fs: s.fs.push(
                                FsDevice {
                                    fs_id,
                                    shared_dir,
                                    shm_size: if shm_size > 0 {
                                        Some(shm_size as usize)
                                    } else {
                                        None
                                    },
                                    read_only,
                                    entries: implicit_entries(s, fs_id, init),
                                },
                            ),
                            ..s
                        },
                )
            },
            None => refused(c, Errno::Inval),
        },
        _ => refused(c, Errno::Inval),
    }
}

/// Share a directory with the guest. Without a path, only virtual entries are
/// shown. A window of size 0 is none. `init` is the init that the build
/// contains.
pub fn krun_add_virtiofs3(
    ctxs: &mut Contexts,
    ctx_id: u32,
    init: Option<&[u8]>,
    tag: Option<&[u8]>,
    path: Option<&[u8]>,
    shm_size: u64,
    read_only: bool,
) -> (r: Result<i32, Errno>)
    ensures
        (final(ctxs)@, r) == virtiofs_added(
            old(ctxs)@,
            ctx_id,
            bytes_in(init),
            bytes_in(tag),
            bytes_in(path),
            shm_size,
            read_only,
        ),
{
    let tag = match tag {
        Some(t) => t,
        None => return Err(Errno::Inval),
    };
    let fs_id: String = match utf8(tag) {
        Some(t) => t,
        None => return Err(Errno::Inval),
    };
    let shared_dir: Option<String> = match optional(path) {
        Some(t) => t,
        None => return Err(Errno::Inval),
    };
    if shm_size > usize::MAX as u64 {
        return Err(Errno::Inval);
    }
    let shm: Option<usize> = if shm_size > 0 {
        Some(shm_size as usize)
    } else {
        None
    };
    match ctxs.find(ctx_id) {
        Some(c) => {
            let virtual_entries = implicit(c, fs_id.as_str(), init);
            add_fs(
                c,
                FsDeviceConfig { fs_id, shared_dir, shm_size: shm, read_only, virtual_entries },
            );
            Ok(0)
        },
        None => Err(Errno::NoEnt),
    }
}

/// [`krun_add_virtiofs3`] without a window, writable.
pub fn krun_add_virtiofs(
    ctxs: &mut Contexts,
    ctx_id: u32,
    init: Option<&[u8]>,
    tag: Option<&[u8]>,
    path: Option<&[u8]>,
) -> (r: Result<i32, Errno>)
    ensures
        (final(ctxs)@, r) == virtiofs_added(
            old(ctxs)@,
            ctx_id,
            bytes_in(init),
            bytes_in(tag),
            bytes_in(path),
            0,
            false,
        ),
{
    krun_add_virtiofs3(ctxs, ctx_id, init, tag, path, 0, false)
}

/// [`krun_add_virtiofs3`], writable.
pub fn krun_add_virtiofs2(
    ctxs: &mut Contexts,
    ctx_id: u32,
    init: Option<&[u8]>,
    tag: Option<&[u8]>,
    path: Option<&[u8]>,
    shm_size: u64,
) -> (r: Result<i32, Errno>)
    ensures
        (final(ctxs)@, r) == virtiofs_added(
            old(ctxs)@,
            ctx_id,
            bytes_in(init),
            bytes_in(tag),
            bytes_in(path),
            shm_size,
            false,
        ),
{
    krun_add_virtiofs3(ctxs, ctx_id, init, tag, path, shm_size, false)
}

pub open spec fn implicit_init_disabled(c: Ctxs, init: Option<Seq<u8>>, id: u32) -> Outcome {
    if init is None {
        (c, Ok(0))
    } else {
        put(c, id, |s: Settings| Settings { disable_implicit_init: true, ..s })
    }
}

/// Show no init in the root that is shared later. There is nothing to switch
/// off where the build contains none.
pub fn krun_disable_implicit_init(ctxs: &mut Contexts, ctx_id: u32, init: Option<&[u8]>) -> (r:
    Result<i32, Errno>)
    ensures
        (final(ctxs)@, r) == implicit_init_disabled(old(ctxs)@, bytes_in(init), ctx_id),
{
    if init.is_none() {
        return Ok(0);
    }
    match ctxs.find(ctx_id) {
        Some(c) => {
            c.disable_implicit_init = true;
            Ok(0)
        },
        None => Err(Errno::NoEnt),
    }
}

/// The init that the build contains, to be handed to a caller that gave room
/// for its address and its length.
pub fn krun_get_default_init<'a>(init: Option<&'a [u8]>, room: bool) -> (r: Result<
    &'a [u8],
    Errno,
>)
    ensures
        match init {
            None => r == Err::<&[u8], Errno>(Errno::NotSup),
            Some(payload) => if room {
                r == Ok::<&[u8], Errno>(payload)
            } else {
                r == Err::<&[u8], Errno>(Errno::Inval)
            },
        },
{
    match init {
        None => Err(Errno::NotSup),
        Some(payload) => if room {
            Ok(payload)
        } else {
            Err(Errno::Inval)
        },
    }
}

// ---------------------------------------------------------------------------
// Virtual entries.
// ---------------------------------------------------------------------------

/// The first device with the tag, from `at` on, or the end.
pub open spec fn find_fs(fs: Seq<FsDevice>, tag: Seq<char>, at: int) -> int
    decreases fs.len() - at,
{
    if at >= fs.len() || fs[at].fs_id == tag {
        at
    } else {
        find_fs(fs, tag, at + 1)
    }
}

/// The settings with an entry added to the device with the tag.
pub open spec fn with_overlay(s: Settings, tag: Seq<char>, path: Seq<char>, new: Entry) -> Result<
    (Settings, i32),
    Errno,
> {
    let i = find_fs(s.fs, tag, 0);
    if i >= s.fs.len() {
        Err(Errno::NoEnt)
    } else {
        match overlaid(s.fs[i].entries, path, new) {
            Err(error) => Err(error),
            Ok(grown) => Ok(
                (
                    Settings {
                        fs: s.fs.update(i, (FsDevice { entries: grown, ..s.fs[i] })),
                        ..s
                    },
                    0,
                ),
            ),
        }
    }
}

pub open spec fn overlay_added(
    c: Ctxs,
    id: u32,
    tag: Option<Seq<u8>>,
    path: Option<Seq<u8>>,
    new: Option<Entry>,
) -> Outcome {
    match (tag, path, new) {
        (Some(tag), Some(path), Some(new)) => match (utf8_text(tag), utf8_text(path)) {
            (Some(tag), Some(path)) => changed(c, id, |s: Settings| with_overlay(s, tag, path, new)),
            _ => refused(c, Errno::Inval),
        },
        _ => refused(c, Errno::Inval),
    }
}

/// Add a virtual entry to the device with the tag.
pub fn fs_add_overlay_entry(
    ctxs: &mut Contexts,
    ctx_id: u32,
    fs_tag: &str,
    path: &str,
    entry: VirtualEntry,
) -> (r: Result<i32, Errno>)
    ensures
        (final(ctxs)@, r) == changed(
            old(ctxs)@,
            ctx_id,
            |s: Settings| with_overlay(s, fs_tag@, path@, entry_of(Seq::empty(), entry)),
        ),
{
    match ctxs.find(ctx_id) {
        Some(c) => {
            let ghost before = c@;
            let mut i: usize = 0;
            while i < c.fs.len() && !same(c.fs[i].fs_id.as_str(), fs_tag)
                invariant
                    i <= c.fs@.len(),
                    before == c@,
                    find_fs(before.fs, fs_tag@, 0) == find_fs(before.fs, fs_tag@, i as int),
                decreases c.fs@.len() - i,
            {
                i += 1;
            }
            if i == c.fs.len() {
                return Err(Errno::NoEnt);
            }
            assert(find_fs(before.fs, fs_tag@, 0) == i);
            let ghost new = entry_of(Seq::empty(), entry);
            let ghost after = overlaid(before.fs[i as int].entries, path@, new);
            match add_overlay_entry(&mut c.fs[i].virtual_entries, path, entry) {
                Ok(_) => {
                    proof {
                        let grown = after->Ok_0;
                        assert(c@.fs =~= before.fs.update(
                            i as int,
                            (FsDevice { entries: grown, ..before.fs[i as int] }),
                        ));
                    }
                    Ok(0)
                },
                Err(e) => {
                    assert(c@.fs =~= before.fs);
                    Err(e)
                },
            }
        },
        None => Err(Errno::NoEnt),
    }
}

/// Show a file with the given contents at the path. There is no data where an
/// address was needed and missing.
pub fn krun_fs_add_overlay_file(
    ctxs: &mut Contexts,
    ctx_id: u32,
    fs_tag: Option<&[u8]>,
    path: Option<&[u8]>,
    data: Option<&[u8]>,
    mode: u32,
    one_shot: bool,
) -> (r: Result<i32, Errno>)
    ensures
        (final(ctxs)@, r) == overlay_added(
            old(ctxs)@,
            ctx_id,
            bytes_in(fs_tag),
            bytes_in(path),
            match data {
                Some(d) => Some(
                    (Entry { name: Seq::empty(), mode, one_shot, content: Content::File(d@) }),
                ),
                None => None,
            },
        ),
{
    match (fs_tag, path) {
        (Some(tag), Some(path)) => match (utf8(tag), utf8(path), data) {
            (Some(tag), Some(path), Some(data)) => fs_add_overlay_entry(
                ctxs,
                ctx_id,
                tag.as_str(),
                path.as_str(),
                VirtualEntry {
                    mode,
                    one_shot,
                    content: VirtualEntryContent::File { data: slice_to_vec(data) },
                },
            ),
            _ => Err(Errno::Inval),
        },
        _ => Err(Errno::Inval),
    }
}

/// Show an empty directory at the path.
pub fn krun_fs_add_overlay_dir(
    ctxs: &mut Contexts,
    ctx_id: u32,
    fs_tag: Option<&[u8]>,
    path: Option<&[u8]>,
    mode: u32,
) -> (r: Result<i32, Errno>)
    ensures
        (final(ctxs)@, r) == overlay_added(
            old(ctxs)@,
            ctx_id,
            bytes_in(fs_tag),
            bytes_in(path),
            Some((Entry { mode, ..empty_dir(Seq::empty()) })),
        ),
{
    match (fs_tag, path) {
        (Some(tag), Some(path)) => match (utf8(tag), utf8(path)) {
            (Some(tag), Some(path)) => {
                let children: Vec<VirtualDirEntry> = Vec::new();
                assert(entries_of(children@) =~= Seq::<Entry>::empty());
                fs_add_overlay_entry(
                    ctxs,
                    ctx_id,
                    tag.as_str(),
                    path.as_str(),
                    VirtualEntry {
                        mode,
                        one_shot: false,
                        content: VirtualEntryContent::Dir { children },
                    },
                )
            },
            _ => Err(Errno::Inval),
        },
        _ => Err(Errno::Inval),
    }
}

// ---------------------------------------------------------------------------
// Disks.
// ---------------------------------------------------------------------------

/// The sync mode of disks that are added without one.
pub open spec fn default_sync(host: Host) -> u32 {
    if host.os == Os::MacOs {
        host.devices.sync_relaxed
    } else {
        host.devices.sync_full
    }
}

fn default_sync_mode(host: &Host) -> (r: u32)
    ensures
        r == default_sync(*host),
{
    if host.os == Os::MacOs {
        host.devices.sync_relaxed
    } else {
        host.devices.sync_full
    }
}

pub open spec fn disk_added(
    c: Ctxs,
    host: Host,
    id: u32,
    block_id: Seq<u8>,
    path: Seq<u8>,
    cache_type: CacheType,
    format: u32,
    read_only: bool,
    direct_io: bool,
    sync_mode: u32,
) -> Outcome {
    match (utf8_text(path), utf8_text(block_id)) {
        (Some(path), Some(block_id)) => if format >= host.devices.image_formats || sync_mode
            >= host.devices.sync_modes {
            refused(c, Errno::Inval)
        } else {
            put(
                c,
                id,
                |s: Settings|
                    Settings {
                        block_cfgs: s.block_cfgs.push(
                            BlockDevice {
                                block_id,
                                cache_type,
                                path,
                                format,
                                read_only,
                                direct_io,
                                sync_mode,
                            },
                        ),
                        ..s
                    },
            )
        },
        _ => refused(c, Errno::Inval),
    }
}

/// Add a disk. `cache_type` is the one that suits the file.
pub fn krun_add_disk3(
    ctxs: &mut Contexts,
    host: &Host,
    ctx_id: u32,
    block_id: &[u8],
    disk_path: &[u8],
    cache_type: CacheType,
    disk_format: u32,
    read_only: bool,
    direct_io: bool,
    sync_mode: u32,
) -> (r: Result<i32, Errno>)
    ensures
        (final(ctxs)@, r) == disk_added(
            old(ctxs)@,
            *host,
            ctx_id,
            block_id@,
            disk_path@,
            cache_type,
            disk_format,
            read_only,
            direct_io,
            sync_mode,
        ),
{
    let path: String = match utf8(disk_path) {
        Some(t) => t,
        None => return Err(Errno::Inval),
    };
    let block_id: String = match utf8(block_id) {
        Some(t) => t,
        None => return Err(Errno::Inval),
    };
    if disk_format >= host.devices.image_formats || sync_mode >= host.devices.sync_modes {
        return Err(Errno::Inval);
    }
    match ctxs.find(ctx_id) {
        Some(c) => {
            let ghost before = c@;
            c.block_cfgs.push(
                BlockDeviceConfig {
                    block_id,
                    cache_type,
                    disk_image_path: path,
                    disk_image_format: disk_format,
                    is_disk_read_only: read_only,
                    direct_io,
                    sync_mode,
                },
            );
            assert(c@.block_cfgs =~= before.block_cfgs.push(c@.block_cfgs.last()));
            Ok(0)
        },
        None => Err(Errno::NoEnt),
    }
}

/// [`krun_add_disk3`] through the page cache, with the default sync mode.
pub fn krun_add_disk2(
    ctxs: &mut Contexts,
    host: &Host,
    ctx_id: u32,
    block_id: &[u8],
    disk_path: &[u8],
    cache_type: CacheType,
    disk_format: u32,
    read_only: bool,
) -> (r: Result<i32, Errno>)
    requires
        default_sync(*host) < host.devices.sync_modes,
    ensures
        (final(ctxs)@, r) == disk_added(
            old(ctxs)@,
            *host,
            ctx_id,
            block_id@,
            disk_path@,
            cache_type,
            disk_format,
            read_only,
            false,
            default_sync(*host),
        ),
{
    let sync_mode: u32 = default_sync_mode(host);
    krun_add_disk3(
        ctxs,
        host,
        ctx_id,
        block_id,
        disk_path,
        cache_type,
        disk_format,
        read_only,
        false,
        sync_mode,
    )
}

/// [`krun_add_disk2`] with a raw image.
pub fn krun_add_disk(
    ctxs: &mut Contexts,
    host: &Host,
    ctx_id: u32,
    block_id: &[u8],
    disk_path: &[u8],
    cache_type: CacheType,
    read_only: bool,
) -> (r: Result<i32, Errno>)
    requires
        default_sync(*host) < host.devices.sync_modes,
        IMAGE_RAW < host.devices.image_formats,
    ensures
        (final(ctxs)@, r) == disk_added(
            old(ctxs)@,
            *host,
            ctx_id,
            block_id@,
            disk_path@,
            cache_type,
            IMAGE_RAW,
            read_only,
            false,
            default_sync(*host),
        ),
{
    krun_add_disk2(ctxs, host, ctx_id, block_id, disk_path, cache_type, IMAGE_RAW, read_only)
}

/// What to make of a request for an overlay image.
#[derive(Debug)]
pub struct OverlayRequest {
    pub overlay_path: String,
    pub base_path: String,
    pub base_format: u32,
}

/// The overlay image to create: its path, and the path and format of the image
/// behind it.
pub fn krun_create_disk_overlay(
    host: &Host,
    overlay_path: &[u8],
    base_path: &[u8],
    base_format: u32,
) -> (r: Result<OverlayRequest, Errno>)
    ensures
        match (utf8_text(overlay_path@), utf8_text(base_path@)) {
            (Some(overlay), Some(base)) => if base_format >= host.devices.image_formats {
                r == Err::<OverlayRequest, Errno>(Errno::Inval)
            } else {
                r matches Ok(q) && q.overlay_path@ == overlay && q.base_path@ == base
                    && q.base_format == base_format
            },
            _ => r == Err::<OverlayRequest, Errno>(Errno::Inval),
        },
{
    let overlay_path: String = match utf8(overlay_path) {
        Some(t) => t,
        None => return Err(Errno::Inval),
    };
    let base_path: String = match utf8(base_path) {
        Some(t) => t,
        None => return Err(Errno::Inval),
    };
    if base_format >= host.devices.image_formats {
        return Err(Errno::Inval);
    }
    Ok(OverlayRequest { overlay_path, base_path, base_format })
}

/// What creating the overlay image answers.
pub fn disk_overlay_created(created: bool) -> (r: Result<i32, Errno>)
    ensures
        r == if created {
            Ok::<i32, Errno>(0i32)
        } else {
            Err(Errno::Io)
        },
{
    if created {
        Ok(0)
    } else {
        Err(Errno::Io)
    }
}

// ---------------------------------------------------------------------------
// Booting from a disk.
// ---------------------------------------------------------------------------

/// The window of the root that a disk is mounted over: 512 MB.
pub const ROOT_WINDOW: usize = 0x2000_0000;

/// The entries of the root that a disk is mounted over: the init, and the
/// directories that it needs as mount points.
pub open spec fn remount_entries(s: Settings, init: Option<Seq<u8>>) -> Seq<Entry> {
    implicit_entries(s, root_tag(), init) + seq![
        empty_dir("dev"@),
        empty_dir("proc"@),
        empty_dir("sys"@),
        empty_dir("newroot"@),
    ]
}

/// The file system type, where one is named.
pub open spec fn fstype_of(fstype: Option<Seq<char>>) -> Option<Seq<char>> {
    if fstype == Some("auto"@) {
        None
    } else {
        fstype
    }
}

pub open spec fn with_root_disk(
    s: Settings,
    init: Option<Seq<u8>>,
    device: Seq<char>,
    fstype: Option<Seq<char>>,
    options: Option<Seq<char>>,
) -> Result<(Settings, i32), Errno> {
    if find_fs(s.fs, root_tag(), 0) < s.fs.len() || s.block_cfgs.len() == 0 {
        Err(Errno::Inval)
    } else {
        Ok(
            (
                Settings {
                    fs: s.fs.push(
                        FsDevice {
                            fs_id: root_tag(),
                            shared_dir: None,
                            shm_size: Some(ROOT_WINDOW),
                            read_only: false,
                            entries: remount_entries(s, init),
                        },
                    ),
                    block_root: Some(BlockRoot { device, fstype: fstype_of(fstype), options }),
                    ..s
                },
                0,
            ),
        )
    }
}

pub open spec fn root_disk_remounted(
    c: Ctxs,
    id: u32,
    init: Option<Seq<u8>>,
    device: Seq<u8>,
    fstype: Option<Seq<u8>>,
    options: Option<Seq<u8>>,
) -> Outcome {
    match (utf8_text(device), optional_text(fstype), optional_text(options)) {
        (Some(device), Some(fstype), Some(options)) => changed(
            c,
            id,
            |s: Settings| with_root_disk(s, init, device, fstype, options),
        ),
        _ => refused(c, Errno::Inval),
    }
}

fn remount_root(
    c: &mut ContextConfig,
    init: Option<&[u8]>,
    device: String,
    fstype: Option<String>,
    options: Option<String>,
) -> (r: Result<i32, Errno>)
    ensures
        match with_root_disk(
            old(c)@,
            bytes_in(init),
            device@,
            text_in(fstype),
            text_in(options),
        ) {
            Ok((s, value)) => r == Ok::<i32, Errno>(value) && final(c)@ == s,
            Err(error) => r == Err::<i32, Errno>(error) && final(c)@ == old(c)@,
        },
{
    let fstype: Option<String> = match fstype {
        Some(t) => if same(t.as_str(), "auto") {
            None
        } else {
            Some(t)
        },
        None => None,
    };
    let ghost before = c@;
    let mut i: usize = 0;
    while i < c.fs.len()
        invariant
            i <= c.fs@.len(),
            before == c@,
            before == old(c)@,
            find_fs(before.fs, root_tag(), 0) == find_fs(before.fs, root_tag(), i as int),
        decreases c.fs@.len() - i,
    {
        if same(c.fs[i].fs_id.as_str(), "/dev/root") {
            return Err(Errno::Inval);
        }
        i += 1;
    }
    if c.block_cfgs.len() == 0 {
        return Err(Errno::Inval);
    }
    let mut virtual_entries = implicit(c, "/dev/root", init);
    push_dir(&mut virtual_entries, "dev");
    push_dir(&mut virtual_entries, "proc");
    push_dir(&mut virtual_entries, "sys");
    push_dir(&mut virtual_entries, "newroot");
    assert(entries_of(virtual_entries@) =~= remount_entries(before, bytes_in(init)));
    add_fs(
        c,
        FsDeviceConfig {
            fs_id: String::from_str("/dev/root"),
            shared_dir: None,
            shm_size: Some(ROOT_WINDOW),
            read_only: false,
            virtual_entries,
        },
    );
    c.block_root = Some(BlockRootConfig { device, fstype, options });
    Ok(0)
}

/// Boot from a disk: the root shows the init and the mount points it needs,
/// and the init then moves to the disk. There must be a disk, and no other
/// root. A file system type of "auto" is none.
pub fn krun_set_root_disk_remount(
    ctxs: &mut Contexts,
    ctx_id: u32,
    init: Option<&[u8]>,
    device: &[u8],
    fstype: Option<&[u8]>,
    options: Option<&[u8]>,
) -> (r: Result<i32, Errno>)
    ensures
        (final(ctxs)@, r) == root_disk_remounted(
            old(ctxs)@,
            ctx_id,
            bytes_in(init),
            device@,
            bytes_in(fstype),
            bytes_in(options),
        ),
{
    let device: String = match utf8(device) {
        Some(t) => t,
        None => return Err(Errno::Inval),
    };
    let fstype: Option<String> = match optional(fstype) {
        Some(t) => t,
        None => return Err(Errno::Inval),
    };
    let options: Option<String> = match optional(options) {
        Some(t) => t,
        None => return Err(Errno::Inval),
    };
    match ctxs.find(ctx_id) {
        Some(c) => remount_root(c, init, device, fstype, options),
        None => Err(Errno::NoEnt),
    }
}

// ---------------------------------------------------------------------------
// Laws.
// ---------------------------------------------------------------------------

/// A root that is shared after the implicit init was switched off shows no
/// virtual entries.
pub proof fn no_init_after_it_was_disabled(
    c: Ctxs,
    id: u32,
    init: Option<Seq<u8>>,
    tag: Option<Seq<u8>>,
    path: Option<Seq<u8>>,
    shm_size: u64,
    read_only: bool,
)
    requires
        c.settings.contains_key(id),
        init is Some,
    ensures
        ({
            let off = implicit_init_disabled(c, init, id);
            let shared = virtiofs_added(off.0, id, init, tag, path, shm_size, read_only);
            &&& off.1 is Ok
            &&& shared.1 is Ok ==> shared.0.settings[id].fs.len() == c.settings[id].fs.len() + 1
            &&& shared.1 is Ok ==> shared.0.settings[id].fs.last().entries.len() == 0
        }),
{
}

/// A guest has one root: after a disk was made its root, another disk cannot
/// be.
pub proof fn a_guest_has_one_root_disk(
    s: Settings,
    init: Option<Seq<u8>>,
    device: Seq<char>,
    fstype: Option<Seq<char>>,
    options: Option<Seq<char>>,
    device2: Seq<char>,
    fstype2: Option<Seq<char>>,
    options2: Option<Seq<char>>,
)
    requires
        with_root_disk(s, init, device, fstype, options) is Ok,
    ensures
        with_root_disk(
            (with_root_disk(s, init, device, fstype, options)->Ok_0).0,
            init,
            device2,
            fstype2,
            options2,
        ) == Err::<(Settings, i32), Errno>(Errno::Inval),
{
    let t = (with_root_disk(s, init, device, fstype, options)->Ok_0).0;
    lemma_root_found(t.fs, 0);
}

proof fn lemma_root_found(fs: Seq<FsDevice>, at: int)
    requires
        0 <= at < fs.len(),
        fs.last().fs_id == root_tag(),
    ensures
        find_fs(fs, root_tag(), at) < fs.len(),
    decreases fs.len() - at,
{
    if fs[at].fs_id != root_tag() {
        lemma_root_found(fs, at + 1);
    }
}

} // verus!
