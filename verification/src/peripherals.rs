//! Graphics, displays, input, consoles, and devices served by other processes.

use vstd::prelude::*;
use vstd::slice::slice_to_vec;
use vstd::string::{StrSliceExecFns, StringExecFns};

use crate::config::{
    text_in, Console, Display, DisplayInfo, DisplayInfoEdid, Edid, EdidParams, Host, Os,
    PhysicalSize, Port, PortConfig, SerialConsoleConfig, Settings, VhostUserDevice,
    VhostUserDeviceConfig, VirtioConsoleConfigMode,
};
use crate::contexts::{changed, put, refused, utf8, utf8_text, Contexts, Ctxs, Outcome};
use crate::errno::Errno;
use crate::machine::bytes_in;

verus! {

// ---------------------------------------------------------------------------
// Graphics.
// ---------------------------------------------------------------------------

pub open spec fn gpu_options_set(
    c: Ctxs,
    id: u32,
    virgl_flags: u32,
    shm_size: Option<usize>,
) -> Outcome {
    put(
        c,
        id,
        |s: Settings|
            Settings {
                gpu_virgl_flags: Some(virgl_flags),
                gpu_shm_size: match shm_size {
                    Some(n) => Some(n),
                    None => s.gpu_shm_size,
                },
                ..s
            },
    )
}

pub fn krun_set_gpu_options(ctxs: &mut Contexts, ctx_id: u32, virgl_flags: u32) -> (r: Result<
    i32,
    Errno,
>)
    ensures
        (final(ctxs)@, r) == gpu_options_set(old(ctxs)@, ctx_id, virgl_flags, None),
{
    match ctxs.find(ctx_id) {
        Some(c) => {
            c.gpu_virgl_flags = Some(virgl_flags);
            Ok(0)
        },
        None => Err(Errno::NoEnt),
    }
}

/// [`krun_set_gpu_options`], with the size of the shared window.
pub fn krun_set_gpu_options2(
    ctxs: &mut Contexts,
    ctx_id: u32,
    virgl_flags: u32,
    shm_size: u64,
) -> (r: Result<i32, Errno>)
    requires
        shm_size <= usize::MAX,
    ensures
        (final(ctxs)@, r) == gpu_options_set(
            old(ctxs)@,
            ctx_id,
            virgl_flags,
            Some(shm_size as usize),
        ),
{
    match ctxs.find(ctx_id) {
        Some(c) => {
            c.gpu_virgl_flags = Some(virgl_flags);
            c.gpu_shm_size = Some(shm_size as usize);
            Ok(0)
        },
        None => Err(Errno::NoEnt),
    }
}

// ---------------------------------------------------------------------------
// Displays.
// ---------------------------------------------------------------------------

pub open spec fn display_backend_set(
    c: Ctxs,
    host: Host,
    id: u32,
    vtable_size: usize,
    basic_len: usize,
    valid: bool,
    backend: u64,
) -> Outcome {
    if !host.features.gpu {
        refused(c, Errno::NotSup)
    } else if vtable_size < basic_len || !valid {
        refused(c, Errno::Inval)
    } else {
        put(c, id, |s: Settings| Settings { display_backend: Some(backend), ..s })
    }
}

/// Set the display backend. Callers may give a table that ends after the basic
/// part, which is `basic_len` long. `valid` is what the table says of itself
/// when it has been read.
pub fn krun_set_display_backend(
    ctxs: &mut Contexts,
    host: &Host,
    ctx_id: u32,
    vtable_size: usize,
    basic_len: usize,
    valid: bool,
    backend: u64,
) -> (r: Result<i32, Errno>)
    ensures
        (final(ctxs)@, r) == display_backend_set(
            old(ctxs)@,
            *host,
            ctx_id,
            vtable_size,
            basic_len,
            valid,
            backend,
        ),
{
    if !host.features.gpu {
        return Err(Errno::NotSup);
    }
    if vtable_size < basic_len {
        return Err(Errno::Inval);
    }
    if !valid {
        return Err(Errno::Inval);
    }
    match ctxs.find(ctx_id) {
        Some(c) => {
            c.display_backend = Some(backend);
            Ok(0)
        },
        None => Err(Errno::NoEnt),
    }
}

pub open spec fn display_added(c: Ctxs, host: Host, id: u32, width: u32, height: u32) -> Outcome {
    if !host.features.gpu {
        refused(c, Errno::NotSup)
    } else {
        changed(
            c,
            id,
            |s: Settings|
                if s.displays.len() >= host.devices.max_displays {
                    Err(Errno::NoMem)
                } else {
                    Ok(
                        (
                            Settings {
                                displays: s.displays.push(
                                    Display {
                                        width,
                                        height,
                                        edid: Edid::Generated(
                                            EdidParams { refresh_rate: None, physical_size: None },
                                        ),
                                    },
                                ),
                                ..s
                            },
                            s.displays.len() as i32,
                        ),
                    )
                },
        )
    }
}

/// Add a display. The answer is its number, counted from 0.
pub fn krun_add_display(ctxs: &mut Contexts, host: &Host, ctx_id: u32, width: u32, height: u32) -> (r:
    Result<i32, Errno>)
    requires
        host.devices.max_displays <= i32::MAX,
    ensures
        (final(ctxs)@, r) == display_added(old(ctxs)@, *host, ctx_id, width, height),
{
    if !host.features.gpu {
        return Err(Errno::NotSup);
    }
    match ctxs.find(ctx_id) {
        Some(c) => {
            let n: usize = c.displays.len();
            if n >= host.devices.max_displays {
                return Err(Errno::NoMem);
            }
            let ghost before = c@;
            c.displays.push(
                DisplayInfo {
                    width,
                    height,
                    edid: DisplayInfoEdid::Generated(
                        EdidParams { refresh_rate: None, physical_size: None },
                    ),
                },
            );
            assert(c@.displays =~= before.displays.push(c@.displays.last()));
            Ok(n as i32)
        },
        None => Err(Errno::NoEnt),
    }
}

/// A change of a display's description. Only a generated one has parameters;
/// what comes of changing another one is `fixed`.
pub open spec fn with_params(
    s: Settings,
    display_id: u32,
    fixed: Errno,
    change: spec_fn(EdidParams) -> EdidParams,
) -> Result<(Settings, i32), Errno> {
    if display_id >= s.displays.len() {
        Err(Errno::Inval)
    } else {
        let d = s.displays[display_id as int];
        match d.edid {
            Edid::Provided(_) => Err(fixed),
            Edid::Generated(params) => Ok(
                (
                    Settings {
                        displays: s.displays.update(
                            display_id as int,
                            (Display { edid: Edid::Generated(change(params)), ..d }),
                        ),
                        ..s
                    },
                    0,
                ),
            ),
        }
    }
}

/// A change that a build without graphics does not support.
pub open spec fn display_changed(
    c: Ctxs,
    host: Host,
    id: u32,
    change: spec_fn(Settings) -> Result<(Settings, i32), Errno>,
) -> Outcome {
    if !host.features.gpu {
        refused(c, Errno::NotSup)
    } else {
        changed(c, id, change)
    }
}

/// What to change of a generated description.
#[derive(Clone, Copy)]
enum Param {
    Rate(u32),
    Size(PhysicalSize),
}

impl Param {
    spec fn applied(self, p: EdidParams) -> EdidParams {
        match self {
            Param::Rate(rate) => EdidParams { refresh_rate: Some(rate), ..p },
            Param::Size(size) => EdidParams { physical_size: Some(size), ..p },
        }
    }
}

fn set_param(
    ctxs: &mut Contexts,
    host: &Host,
    ctx_id: u32,
    display_id: u32,
    fixed: Errno,
    param: Param,
) -> (r: Result<i32, Errno>)
    ensures
        (final(ctxs)@, r) == display_changed(
            old(ctxs)@,
            *host,
            ctx_id,
            |s: Settings| with_params(s, display_id, fixed, |p: EdidParams| param.applied(p)),
        ),
{
    if !host.features.gpu {
        return Err(Errno::NotSup);
    }
    match ctxs.find(ctx_id) {
        Some(c) => {
            let ghost before = c@;
            let i: usize = display_id as usize;
            if i >= c.displays.len() {
                return Err(Errno::Inval);
            }
            let params: EdidParams = match &c.displays[i].edid {
                DisplayInfoEdid::Generated(p) => *p,
                DisplayInfoEdid::Provided(_) => return Err(fixed),
            };
            let new: EdidParams = match param {
                Param::Rate(rate) => EdidParams {
                    refresh_rate: Some(rate),
                    physical_size: params.physical_size,
                },
                Param::Size(size) => EdidParams {
                    refresh_rate: params.refresh_rate,
                    physical_size: Some(size),
                },
            };
            c.displays[i].edid = DisplayInfoEdid::Generated(new);
            assert(c@.displays =~= before.displays.update(
                i as int,
                (Display { edid: Edid::Generated(param.applied(params)), ..before.displays[i as int]
                }),
            ));
            Ok(0)
        },
        None => Err(Errno::NoEnt),
    }
}

pub fn krun_display_set_refresh_rate(
    ctxs: &mut Contexts,
    host: &Host,
    ctx_id: u32,
    display_id: u32,
    refresh_rate: u32,
) -> (r: Result<i32, Errno>)
    ensures
        (final(ctxs)@, r) == display_changed(
            old(ctxs)@,
            *host,
            ctx_id,
            |s: Settings|
                with_params(
                    s,
                    display_id,
                    Errno::Already,
                    |p: EdidParams| EdidParams { refresh_rate: Some(refresh_rate), ..p },
                ),
        ),
{
    let param = Param::Rate(refresh_rate);
    assert((|p: EdidParams| param.applied(p)) =~= (|p: EdidParams|
        EdidParams { refresh_rate: Some(refresh_rate), ..p }));
    set_param(ctxs, host, ctx_id, display_id, Errno::Already, param)
}

pub fn krun_display_set_physical_size(
    ctxs: &mut Contexts,
    host: &Host,
    ctx_id: u32,
    display_id: u32,
    width_mm: u16,
    height_mm: u16,
) -> (r: Result<i32, Errno>)
    ensures
        (final(ctxs)@, r) == display_changed(
            old(ctxs)@,
            *host,
            ctx_id,
            |s: Settings|
                with_params(
                    s,
                    display_id,
                    Errno::Already,
                    |p: EdidParams|
                        EdidParams {
                            physical_size: Some(
                                PhysicalSize::DimensionsMillimeters(width_mm, height_mm),
                            ),
                            ..p
                        },
                ),
        ),
{
    let size = PhysicalSize::DimensionsMillimeters(width_mm, height_mm);
    let param = Param::Size(size);
    assert((|p: EdidParams| param.applied(p)) =~= (|p: EdidParams|
        EdidParams { physical_size: Some(size), ..p }));
    set_param(ctxs, host, ctx_id, display_id, Errno::Already, param)
}

pub fn krun_display_set_dpi(
    ctxs: &mut Contexts,
    host: &Host,
    ctx_id: u32,
    display_id: u32,
    dpi: u32,
) -> (r: Result<i32, Errno>)
    ensures
        (final(ctxs)@, r) == display_changed(
            old(ctxs)@,
            *host,
            ctx_id,
            |s: Settings|
                with_params(
                    s,
                    display_id,
                    Errno::Inval,
                    |p: EdidParams| EdidParams { physical_size: Some(PhysicalSize::Dpi(dpi)), ..p },
                ),
        ),
{
    let size = PhysicalSize::Dpi(dpi);
    let param = Param::Size(size);
    assert((|p: EdidParams| param.applied(p)) =~= (|p: EdidParams|
        EdidParams { physical_size: Some(size), ..p }));
    set_param(ctxs, host, ctx_id, display_id, Errno::Inval, param)
}

/// The settings with the display's description replaced.
pub open spec fn with_edid(s: Settings, display_id: u32, edid: Option<Seq<u8>>) -> Result<
    (Settings, i32),
    Errno,
> {
    if display_id >= s.displays.len() {
        Err(Errno::Inval)
    } else {
        match edid {
            None => Err(Errno::Inval),
            Some(blob) => Ok(
                (
                    Settings {
                        displays: s.displays.update(
                            display_id as int,
                            (Display {
                                edid: Edid::Provided(blob),
                                ..s.displays[display_id as int]
                            }),
                        ),
                        ..s
                    },
                    0,
                ),
            ),
        }
    }
}

/// Describe the display by the given bytes from now on.
pub fn krun_display_set_edid(
    ctxs: &mut Contexts,
    host: &Host,
    ctx_id: u32,
    display_id: u32,
    edid: Option<&[u8]>,
) -> (r: Result<i32, Errno>)
    ensures
        (final(ctxs)@, r) == display_changed(
            old(ctxs)@,
            *host,
            ctx_id,
            |s: Settings| with_edid(s, display_id, bytes_in(edid)),
        ),
{
    if !host.features.gpu {
        return Err(Errno::NotSup);
    }
    match ctxs.find(ctx_id) {
        Some(c) => {
            let ghost before = c@;
            let i: usize = display_id as usize;
            if i >= c.displays.len() {
                return Err(Errno::Inval);
            }
            match edid {
                None => Err(Errno::Inval),
                Some(blob) => {
                    c.displays[i].edid = DisplayInfoEdid::Provided(slice_to_vec(blob));
                    assert(c@.displays =~= before.displays.update(
                        i as int,
                        (Display { edid: Edid::Provided(blob@), ..before.displays[i as int] }),
                    ));
                    Ok(0)
                },
            }
        },
        None => Err(Errno::NoEnt),
    }
}

/// A description that was given stays as it is: its parameters cannot be
/// changed any more.
pub proof fn a_given_description_is_final(
    s: Settings,
    display_id: u32,
    blob: Seq<u8>,
    fixed: Errno,
    change: spec_fn(EdidParams) -> EdidParams,
)
    requires
        display_id < s.displays.len(),
    ensures
        with_edid(s, display_id, Some(blob)) matches Ok((t, _)) && with_params(
            t,
            display_id,
            fixed,
            change,
        ) == Err::<(Settings, i32), Errno>(fixed),
{
}

// ---------------------------------------------------------------------------
// Input.
// ---------------------------------------------------------------------------

pub open spec fn input_added(c: Ctxs, id: u32, backend: u64) -> Outcome {
    put(c, id, |s: Settings| Settings { input_backends: s.input_backends.push(backend), ..s })
}

fn add_input(ctxs: &mut Contexts, ctx_id: u32, backend: u64) -> (r: Result<i32, Errno>)
    ensures
        (final(ctxs)@, r) == input_added(old(ctxs)@, ctx_id, backend),
{
    match ctxs.find(ctx_id) {
        Some(c) => {
            c.input_backends.push(backend);
            Ok(0)
        },
        None => Err(Errno::NoEnt),
    }
}

/// Add an input device behind a descriptor.
pub fn krun_add_input_device_fd(
    ctxs: &mut Contexts,
    host: &Host,
    ctx_id: u32,
    input_fd: i32,
    backend: u64,
) -> (r: Result<i32, Errno>)
    ensures
        (final(ctxs)@, r) == if !host.features.input {
            refused(old(ctxs)@, Errno::NotSup)
        } else if input_fd < 0 {
            refused(old(ctxs)@, Errno::Inval)
        } else {
            input_added(old(ctxs)@, ctx_id, backend)
        },
{
    if !host.features.input {
        return Err(Errno::NotSup);
    }
    if input_fd < 0 {
        return Err(Errno::Inval);
    }
    add_input(ctxs, ctx_id, backend)
}

/// Add an input device behind two tables: `sizes` are those that the caller
/// gave, if it gave both tables, and `needed` those of the tables themselves.
/// `valid` is what the tables say of themselves when they have been read.
pub fn krun_add_input_device(
    ctxs: &mut Contexts,
    host: &Host,
    ctx_id: u32,
    sizes: Option<(usize, usize)>,
    needed: (usize, usize),
    valid: bool,
    backend: u64,
) -> (r: Result<i32, Errno>)
    ensures
        (final(ctxs)@, r) == if !host.features.input {
            refused(old(ctxs)@, Errno::NotSup)
        } else {
            match sizes {
                Some((config, events)) => if config < needed.0 || events < needed.1 || !valid {
                    refused(old(ctxs)@, Errno::Inval)
                } else {
                    input_added(old(ctxs)@, ctx_id, backend)
                },
                None => refused(old(ctxs)@, Errno::Inval),
            }
        },
{
    if !host.features.input {
        return Err(Errno::NotSup);
    }
    match sizes {
        Some((config, events)) => {
            if config < needed.0 || events < needed.1 {
                return Err(Errno::Inval);
            }
            if !valid {
                return Err(Errno::Inval);
            }
            add_input(ctxs, ctx_id, backend)
        },
        None => Err(Errno::Inval),
    }
}

// ---------------------------------------------------------------------------
// Devices served by other processes.
// ---------------------------------------------------------------------------

/// The number of queues that a device can have: queue numbers have 16 bits.
pub const VIRTIO_MAX_QUEUES: usize = 65536;

/// The first zero, from `at` on, or the end.
pub open spec fn find_zero(s: Seq<u16>, at: int) -> int
    decreases s.len() - at,
{
    if at >= s.len() || s[at] == 0 {
        at
    } else {
        find_zero(s, at + 1)
    }
}

/// The sizes of the queues: those counted, or those before a zero, which must
/// come within [`VIRTIO_MAX_QUEUES`] numbers.
pub open spec fn queue_sizes_of(num_queues: u16, sizes: Option<Seq<u16>>) -> Option<Seq<u16>> {
    match sizes {
        None => Some(Seq::empty()),
        Some(s) => if num_queues > 0 {
            Some(s.take(num_queues as int))
        } else if find_zero(s, 0) >= VIRTIO_MAX_QUEUES {
            None
        } else {
            Some(s.take(find_zero(s, 0)))
        },
    }
}

/// The numbers suffice: there are as many as are counted, or a zero among
/// them, or [`VIRTIO_MAX_QUEUES`] of them.
pub open spec fn enough_sizes(num_queues: u16, sizes: Option<Seq<u16>>) -> bool {
    sizes matches Some(s) ==> if num_queues > 0 {
        s.len() >= num_queues
    } else {
        s.len() >= VIRTIO_MAX_QUEUES || find_zero(s, 0) < s.len()
    }
}

/// The numbers, where there are any.
pub open spec fn numbers_in(o: Option<&[u16]>) -> Option<Seq<u16>> {
    match o {
        Some(s) => Some(s@),
        None => None,
    }
}

fn read_queue_sizes(num_queues: u16, sizes: Option<&[u16]>) -> (r: Option<Vec<u16>>)
    requires
        enough_sizes(num_queues, numbers_in(sizes)),
    ensures
        match queue_sizes_of(num_queues, numbers_in(sizes)) {
            Some(s) => r is Some && r->0@ == s,
            None => r is None,
        },
{
    let sizes = match sizes {
        Some(s) => s,
        None => return Some(Vec::new()),
    };
    let limit: usize = if num_queues > 0 {
        num_queues as usize
    } else {
        VIRTIO_MAX_QUEUES
    };
    let mut out: Vec<u16> = Vec::new();
    let mut i: usize = 0;
    assert(sizes@.take(0) =~= out@);
    while i < limit && !(num_queues == 0 && sizes[i] == 0)
        invariant
            i <= limit,
            limit == if num_queues > 0 { num_queues as usize } else { VIRTIO_MAX_QUEUES },
            enough_sizes(num_queues, Some(sizes@)),
            i <= sizes@.len(),
            i < limit ==> i < sizes@.len(),
            num_queues == 0 ==> find_zero(sizes@, 0) == find_zero(sizes@, i as int),
            out@ == sizes@.take(i as int),
        decreases limit - i,
    {
        out.push(sizes[i]);
        assert(out@ =~= sizes@.take(i + 1));
        i += 1;
        if num_queues == 0 && i < limit {
            assert(find_zero(sizes@, 0) == find_zero(sizes@, i as int));
        }
    }
    if num_queues == 0 && i >= VIRTIO_MAX_QUEUES {
        proof {
            lemma_find_zero(sizes@, i as int);
        }
        return None;
    }
    Some(out)
}

proof fn lemma_find_zero(s: Seq<u16>, at: int)
    requires
        0 <= at,
    ensures
        at <= find_zero(s, at),
    decreases s.len() - at,
{
    if at < s.len() && s[at] != 0 {
        lemma_find_zero(s, at + 1);
    }
}

/// The name, where it is text and not empty.
pub open spec fn name_of(name: Option<Seq<u8>>) -> Option<Seq<char>> {
    match name {
        Some(bytes) => match utf8_text(bytes) {
            Some(t) => if t.len() > 0 {
                Some(t)
            } else {
                None
            },
            None => None,
        },
        None => None,
    }
}

pub open spec fn vhost_user_device_added(
    c: Ctxs,
    host: Host,
    id: u32,
    device_type: u32,
    socket_path: Seq<u8>,
    name: Option<Seq<u8>>,
    num_queues: u16,
    sizes: Option<Seq<u16>>,
) -> Outcome {
    if !host.features.vhost_user {
        refused(c, Errno::NotSup)
    } else {
        match (utf8_text(socket_path), queue_sizes_of(num_queues, sizes)) {
            (Some(path), Some(queue_sizes)) => if path.len() == 0 {
                refused(c, Errno::Inval)
            } else {
                put(
                    c,
                    id,
                    |s: Settings|
                        Settings {
                            vhost_user_devices: s.vhost_user_devices.push(
                                VhostUserDevice {
                                    device_type,
                                    socket_path: path,
                                    name: name_of(name),
                                    num_queues,
                                    queue_sizes,
                                },
                            ),
                            ..s
                        },
                )
            },
            _ => refused(c, Errno::Inval),
        }
    }
}

/// Add a device that another process serves behind a socket. With 0 queues
/// their sizes end at a zero; `queue_sizes` are the numbers that were read.
pub fn krun_add_vhost_user_device(
    ctxs: &mut Contexts,
    host: &Host,
    ctx_id: u32,
    device_type: u32,
    socket_path: &[u8],
    name: Option<&[u8]>,
    num_queues: u16,
    queue_sizes: Option<&[u16]>,
) -> (r: Result<i32, Errno>)
    requires
        enough_sizes(num_queues, numbers_in(queue_sizes)),
    ensures
        (final(ctxs)@, r) == vhost_user_device_added(
            old(ctxs)@,
            *host,
            ctx_id,
            device_type,
            socket_path@,
            bytes_in(name),
            num_queues,
            numbers_in(queue_sizes),
        ),
{
    if !host.features.vhost_user {
        return Err(Errno::NotSup);
    }
    let path: String = match utf8(socket_path) {
        Some(t) => t,
        None => return Err(Errno::Inval),
    };
    if path.as_str().unicode_len() == 0 {
        return Err(Errno::Inval);
    }
    let name: Option<String> = match name {
        Some(bytes) => match utf8(bytes) {
            Some(t) => if t.as_str().unicode_len() > 0 {
                Some(t)
            } else {
                None
            },
            None => None,
        },
        None => None,
    };
    let sizes: Vec<u16> = match read_queue_sizes(num_queues, queue_sizes) {
        Some(v) => v,
        None => return Err(Errno::Inval),
    };
    match ctxs.find(ctx_id) {
        Some(c) => {
            let ghost before = c@;
            c.vhost_user_devices.push(
                VhostUserDeviceConfig {
                    device_type,
                    socket_path: path,
                    name,
                    num_queues,
                    queue_sizes: sizes,
                },
            );
            assert(c@.vhost_user_devices =~= before.vhost_user_devices.push(
                c@.vhost_user_devices.last(),
            ));
            Ok(0)
        },
        None => Err(Errno::NoEnt),
    }
}

// ---------------------------------------------------------------------------
// Consoles.
// ---------------------------------------------------------------------------

pub open spec fn console_added(c: Ctxs, id: u32, console: Console) -> Outcome {
    put(c, id, |s: Settings| Settings { virtio_consoles: s.virtio_consoles.push(console), ..s })
}

/// Add a console whose ports are made to fit the descriptors.
pub fn krun_add_virtio_console_default(
    ctxs: &mut Contexts,
    ctx_id: u32,
    input: i64,
    output: i64,
    err: i64,
) -> (r: Result<i32, Errno>)
    ensures
        (final(ctxs)@, r) == console_added(
            old(ctxs)@,
            ctx_id,
            Console::Autoconfigure { input, output, err },
        ),
{
    match ctxs.find(ctx_id) {
        Some(c) => {
            let ghost before = c@;
            c.virtio_consoles.push(VirtioConsoleConfigMode::Autoconfigure { input, output, err });
            assert(c@.virtio_consoles =~= before.virtio_consoles.push(c@.virtio_consoles.last()));
            Ok(0)
        },
        None => Err(Errno::NoEnt),
    }
}

/// Add a console without ports. The answer is its number, counted from 0.
pub fn krun_add_virtio_console_multiport(ctxs: &mut Contexts, ctx_id: u32) -> (r: Result<
    i32,
    Errno,
>)
    requires
        old(ctxs)@.settings.contains_key(ctx_id)
            ==> old(ctxs)@.settings[ctx_id].virtio_consoles.len() <= i32::MAX,
    ensures
        (final(ctxs)@, r) == changed(
            old(ctxs)@,
            ctx_id,
            |s: Settings|
                Ok(
                    (
                        Settings {
                            virtio_consoles: s.virtio_consoles.push(
                                Console::Explicit(Seq::empty()),
                            ),
                            ..s
                        },
                        s.virtio_consoles.len() as i32,
                    ),
                ),
        ),
{
    match ctxs.find(ctx_id) {
        Some(c) => {
            let ghost before = c@;
            let n: usize = c.virtio_consoles.len();
            let ports: Vec<PortConfig> = Vec::new();
            c.virtio_consoles.push(VirtioConsoleConfigMode::Explicit(ports));
            proof {
                assert(ports@.map_values(|p: PortConfig| p@) =~= Seq::<Port>::empty());
                assert(c@.virtio_consoles =~= before.virtio_consoles.push(
                    Console::Explicit(Seq::empty()),
                ));
            }
            Ok(n as i32)
        },
        None => Err(Errno::NoEnt),
    }
}

/// The settings with one more port of the console, which must be one whose
/// ports are given.
pub open spec fn with_console_port(s: Settings, console_id: u32, port: Port) -> Result<
    (Settings, i32),
    Errno,
> {
    if console_id >= s.virtio_consoles.len() {
        Err(Errno::Inval)
    } else {
        match s.virtio_consoles[console_id as int] {
            Console::Autoconfigure { .. } => Err(Errno::Inval),
            Console::Explicit(ports) => Ok(
                (
                    Settings {
                        virtio_consoles: s.virtio_consoles.update(
                            console_id as int,
                            Console::Explicit(ports.push(port)),
                        ),
                        ..s
                    },
                    0,
                ),
            ),
        }
    }
}

fn add_port(ctxs: &mut Contexts, ctx_id: u32, console_id: u32, port: PortConfig) -> (r: Result<
    i32,
    Errno,
>)
    ensures
        (final(ctxs)@, r) == changed(
            old(ctxs)@,
            ctx_id,
            |s: Settings| with_console_port(s, console_id, port@),
        ),
{
    match ctxs.find(ctx_id) {
        Some(c) => {
            let ghost before = c@;
            let i: usize = console_id as usize;
            if i >= c.virtio_consoles.len() {
                return Err(Errno::Inval);
            }
            let fixed: bool = match &c.virtio_consoles[i] {
                VirtioConsoleConfigMode::Explicit(_) => false,
                _ => true,
            };
            if fixed {
                return Err(Errno::Inval);
            }
            let ghost view = |p: PortConfig| p@;
            match &mut c.virtio_consoles[i] {
                VirtioConsoleConfigMode::Explicit(ports) => {
                    let ghost was = ports@;
                    ports.push(port);
                    assert(was.push(port).map_values(view) =~= was.map_values(view).push(port@));
                },
                _ => {},
            }
            proof {
                let ports = before.virtio_consoles[i as int]->Explicit_0;
                assert(c@.virtio_consoles =~= before.virtio_consoles.update(
                    i as int,
                    Console::Explicit(ports.push(port@)),
                ));
            }
            Ok(0)
        },
        None => Err(Errno::NoEnt),
    }
}

/// The name of a port, which need not have one.
pub open spec fn port_name(name: Option<Seq<u8>>) -> Option<Seq<char>> {
    match name {
        None => Some(Seq::empty()),
        Some(bytes) => utf8_text(bytes),
    }
}

fn read_port_name(name: Option<&[u8]>) -> (r: Option<String>)
    ensures
        text_in(r) == port_name(bytes_in(name)),
{
    match name {
        None => {
            let e = String::from_str("");
            proof {
                reveal_strlit("");
                assert(e@ =~= Seq::<char>::empty());
            }
            Some(e)
        },
        Some(bytes) => utf8(bytes),
    }
}

/// Whether a descriptor stands for no terminal at all.
pub open spec fn no_descriptor(host: Host, tty: i64) -> bool {
    if host.os == Os::Windows {
        tty == 0
    } else {
        tty < 0
    }
}

pub open spec fn console_port_tty_added(
    c: Ctxs,
    host: Host,
    id: u32,
    console_id: u32,
    name: Option<Seq<u8>>,
    tty: i64,
    terminal: bool,
) -> Outcome {
    if no_descriptor(host, tty) {
        refused(c, Errno::Inval)
    } else {
        match port_name(name) {
            None => refused(c, Errno::Inval),
            Some(name) => if !terminal {
                refused(c, Errno::NotTty)
            } else {
                changed(
                    c,
                    id,
                    |s: Settings| with_console_port(s, console_id, Port::Tty { name, tty }),
                )
            },
        }
    }
}

/// Add a port on a terminal. `terminal` is whether the descriptor is one.
pub fn krun_add_console_port_tty(
    ctxs: &mut Contexts,
    host: &Host,
    ctx_id: u32,
    console_id: u32,
    name: Option<&[u8]>,
    tty: i64,
    terminal: bool,
) -> (r: Result<i32, Errno>)
    ensures
        (final(ctxs)@, r) == console_port_tty_added(
            old(ctxs)@,
            *host,
            ctx_id,
            console_id,
            bytes_in(name),
            tty,
            terminal,
        ),
{
    let missing: bool = if host.os == Os::Windows {
        tty == 0
    } else {
        tty < 0
    };
    if missing {
        return Err(Errno::Inval);
    }
    let name: String = match read_port_name(name) {
        Some(t) => t,
        None => return Err(Errno::Inval),
    };
    if !terminal {
        return Err(Errno::NotTty);
    }
    add_port(ctxs, ctx_id, console_id, PortConfig::Tty { name, tty })
}

pub open spec fn console_port_inout_added(
    c: Ctxs,
    id: u32,
    console_id: u32,
    name: Option<Seq<u8>>,
    input: i64,
    output: i64,
) -> Outcome {
    match port_name(name) {
        None => refused(c, Errno::Inval),
        Some(name) => changed(
            c,
            id,
            |s: Settings| with_console_port(s, console_id, Port::InOut { name, input, output }),
        ),
    }
}

/// Add a port on two descriptors.
pub fn krun_add_console_port_inout(
    ctxs: &mut Contexts,
    ctx_id: u32,
    console_id: u32,
    name: Option<&[u8]>,
    input: i64,
    output: i64,
) -> (r: Result<i32, Errno>)
    ensures
        (final(ctxs)@, r) == console_port_inout_added(
            old(ctxs)@,
            ctx_id,
            console_id,
            bytes_in(name),
            input,
            output,
        ),
{
    let name: String = match read_port_name(name) {
        Some(t) => t,
        None => return Err(Errno::Inval),
    };
    add_port(ctxs, ctx_id, console_id, PortConfig::InOut { name, input, output })
}

/// Add a serial console.
pub fn krun_add_serial_console_default(
    ctxs: &mut Contexts,
    ctx_id: u32,
    input: i64,
    output: i64,
) -> (r: Result<i32, Errno>)
    ensures
        (final(ctxs)@, r) == put(
            old(ctxs)@,
            ctx_id,
            |s: Settings|
                Settings {
                    serial_consoles: s.serial_consoles.push(SerialConsoleConfig { input, output }),
                    ..s
                },
        ),
{
    match ctxs.find(ctx_id) {
        Some(c) => {
            c.serial_consoles.push(SerialConsoleConfig { input, output });
            Ok(0)
        },
        None => Err(Errno::NoEnt),
    }
}

/// A console that was added without ports takes them, under the number that
/// adding it answered.
pub proof fn a_new_console_takes_ports(s: Settings, port: Port)
    requires
        s.virtio_consoles.len() <= i32::MAX,
    ensures
        ({
            let n = s.virtio_consoles.len();
            let t = Settings {
                virtio_consoles: s.virtio_consoles.push(Console::Explicit(Seq::empty())),
                ..s
            };
            with_console_port(t, n as u32, port) matches Ok((u, _)) && u.virtio_consoles.len() == n
                + 1 && u.virtio_consoles[n as int] == Console::Explicit(seq![port])
        }),
{
    assert(Seq::<Port>::empty().push(port) =~= seq![port]);
}

} // verus!
