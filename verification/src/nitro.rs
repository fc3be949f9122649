//! Enclaves: what a configuration must hold to start one.

use vstd::prelude::*;
use vstd::string::StringExecFns;

use crate::config::{text_in, ContextConfig, NetBackend, Settings, VirtioNetBackend};
use crate::contexts::{changed, freed, refused, utf8, utf8_text, Contexts, Ctxs, Outcome};
use crate::errno::Errno;

verus! {

pub open spec fn console_output_set(c: Ctxs, id: u32, filepath: Seq<u8>) -> Outcome {
    match utf8_text(filepath) {
        None => refused(c, Errno::Inval),
        Some(path) => changed(
            c,
            id,
            |s: Settings|
                if s.nitro_console_output is Some {
                    Err(Errno::Inval)
                } else {
                    Ok((Settings { nitro_console_output: Some(path), ..s }, 0i32))
                },
        ),
    }
}

/// Where the console's output goes. It can be set once.
pub fn krun_set_console_output(ctxs: &mut Contexts, ctx_id: u32, filepath: &[u8]) -> (r: Result<
    i32,
    Errno,
>)
    ensures
        (final(ctxs)@, r) == console_output_set(old(ctxs)@, ctx_id, filepath@),
{
    let path: String = match utf8(filepath) {
        Some(t) => t,
        None => return Err(Errno::Inval),
    };
    match ctxs.find(ctx_id) {
        Some(c) => {
            if c.nitro_console_output.is_some() {
                return Err(Errno::Inval);
            }
            c.nitro_console_output = Some(path);
            Ok(0)
        },
        None => Err(Errno::NoEnt),
    }
}

/// An enclave to run.
#[derive(Debug)]
pub struct NitroEnclave {
    pub mem_size_mib: usize,
    pub vcpus: u8,
    pub rootfs: Option<String>,
    pub exec_path: String,
    pub exec_args: String,
    pub exec_env: String,
    pub net_unixfd: Option<i32>,
    pub output_path: String,
    pub debug: bool,
}

/// An enclave, as a value.
pub struct Enclave {
    pub mem_size_mib: usize,
    pub vcpus: u8,
    pub rootfs: Option<Seq<char>>,
    pub exec_path: Seq<char>,
    pub exec_args: Seq<char>,
    pub exec_env: Seq<char>,
    pub net_unixfd: Option<i32>,
    pub output_path: Seq<char>,
    pub debug: bool,
}

impl View for NitroEnclave {
    type V = Enclave;

    open spec fn view(&self) -> Enclave {
        Enclave {
            mem_size_mib: self.mem_size_mib,
            vcpus: self.vcpus,
            rootfs: text_in(self.rootfs),
            exec_path: self.exec_path@,
            exec_args: self.exec_args@,
            exec_env: self.exec_env@,
            net_unixfd: self.net_unixfd,
            output_path: self.output_path@,
            debug: self.debug,
        }
    }
}

/// What keeps a configuration from being an enclave.
#[derive(Debug, Clone, Copy, PartialEq, Eq, Structural)]
pub enum EnclaveFault {
    NoMemory,
    NoVcpus,
    NoRootfs,
    NoExecPath,
    NoEnv,
    NoArgs,
    /// The network interface is not behind a stream's descriptor.
    NetBackend,
    TooManyInterfaces,
    NoOutput,
}

impl EnclaveFault {
    /// The answer for the fault: whatever is missing, the argument is invalid.
    pub fn errno(&self) -> (r: Errno)
        ensures
            r == Errno::Inval,
    {
        Errno::Inval
    }
}

/// The descriptor of the one interface, where there is one.
pub open spec fn net_fd_of(s: Settings) -> Result<Option<i32>, EnclaveFault> {
    if s.net.len() == 0 {
        Ok(None)
    } else if s.net.len() > 1 {
        Err(EnclaveFault::TooManyInterfaces)
    } else {
        match s.net[0].backend {
            NetBackend::UnixstreamFd(fd) => Ok(Some(fd)),
            _ => Err(EnclaveFault::NetBackend),
        }
    }
}

/// The enclave that the configuration stands for, or the first thing that is
/// missing.
pub open spec fn enclave_of(s: Settings, debug: bool) -> Result<Enclave, EnclaveFault> {
    if s.vm_config.mem_size_mib is None {
        Err(EnclaveFault::NoMemory)
    } else if s.vm_config.vcpu_count is None {
        Err(EnclaveFault::NoVcpus)
    } else if s.fs.len() == 0 {
        Err(EnclaveFault::NoRootfs)
    } else if s.exec_path is None {
        Err(EnclaveFault::NoExecPath)
    } else if s.env is None {
        Err(EnclaveFault::NoEnv)
    } else if s.args is None {
        Err(EnclaveFault::NoArgs)
    } else {
        match net_fd_of(s) {
            Err(fault) => Err(fault),
            Ok(net_unixfd) => if s.nitro_console_output is None {
                Err(EnclaveFault::NoOutput)
            } else {
                Ok(
                    Enclave {
                        mem_size_mib: s.vm_config.mem_size_mib->0,
                        vcpus: s.vm_config.vcpu_count->0,
                        rootfs: s.fs[0].shared_dir,
                        exec_path: s.exec_path->0,
                        exec_args: s.args->0,
                        exec_env: s.env->0,
                        net_unixfd,
                        output_path: s.nitro_console_output->0,
                        debug,
                    },
                )
            },
        }
    }
}

fn net_fd(c: &ContextConfig) -> (r: Result<Option<i32>, EnclaveFault>)
    ensures
        r == net_fd_of(c@),
{
    if c.net.len() == 0 {
        return Ok(None);
    }
    if c.net.len() > 1 {
        return Err(EnclaveFault::TooManyInterfaces);
    }
    match &c.net[0].backend {
        VirtioNetBackend::UnixstreamFd(fd) => Ok(Some(*fd)),
        _ => Err(EnclaveFault::NetBackend),
    }
}

fn copied(o: &Option<String>) -> (r: Option<String>)
    ensures
        text_in(r) == text_in(*o),
{
    match o {
        Some(s) => Some(String::from_str(s.as_str())),
        None => None,
    }
}

impl NitroEnclave {
    /// The enclave that the configuration stands for.
    pub fn try_from(c: &ContextConfig, debug: bool) -> (r: Result<Self, EnclaveFault>)
        ensures
            match enclave_of(c@, debug) {
                Ok(e) => r is Ok && r->Ok_0@ == e,
                Err(fault) => r is Err && r->Err_0 == fault,
            },
    {
        let mem_size_mib: usize = match c.vm_config.mem_size_mib {
            Some(n) => n,
            None => return Err(EnclaveFault::NoMemory),
        };
        let vcpus: u8 = match c.vm_config.vcpu_count {
            Some(n) => n,
            None => return Err(EnclaveFault::NoVcpus),
        };
        if c.fs.len() == 0 {
            return Err(EnclaveFault::NoRootfs);
        }
        let rootfs: Option<String> = copied(&c.fs[0].shared_dir);
        let exec_path: String = match copied(&c.exec_path) {
            Some(t) => t,
            None => return Err(EnclaveFault::NoExecPath),
        };
        let exec_env: String = match copied(&c.env) {
            Some(t) => t,
            None => return Err(EnclaveFault::NoEnv),
        };
        let exec_args: String = match copied(&c.args) {
            Some(t) => t,
            None => return Err(EnclaveFault::NoArgs),
        };
        let net_unixfd: Option<i32> = match net_fd(c) {
            Ok(fd) => fd,
            Err(fault) => return Err(fault),
        };
        let output_path: String = match copied(&c.nitro_console_output) {
            Some(t) => t,
            None => return Err(EnclaveFault::NoOutput),
        };
        Ok(
            NitroEnclave {
                mem_size_mib,
                vcpus,
                rootfs,
                exec_path,
                exec_args,
                exec_env,
                net_unixfd,
                output_path,
                debug,
            },
        )
    }
}

/// Take the context out and make it an enclave.
pub fn krun_start_enter_nitro(ctxs: &mut Contexts, ctx_id: u32, debug: bool) -> (r: Result<
    NitroEnclave,
    Errno,
>)
    ensures
        final(ctxs)@ == freed(old(ctxs)@, ctx_id).0,
        if !old(ctxs)@.settings.contains_key(ctx_id) {
            r is Err && r->Err_0 == Errno::NoEnt
        } else {
            match enclave_of(old(ctxs)@.settings[ctx_id], debug) {
                Ok(e) => r is Ok && r->Ok_0@ == e,
                Err(_) => r is Err && r->Err_0 == Errno::Inval,
            }
        },
{
    match ctxs.take(ctx_id) {
        Some(c) => match NitroEnclave::try_from(&c, debug) {
            Ok(e) => Ok(e),
            Err(fault) => Err(fault.errno()),
        },
        None => Err(Errno::NoEnt),
    }
}

} // verus!
