//! What runs in the guest: the program, its arguments, environment, limits
//! and working directory.

use vstd::prelude::*;
use vstd::string::StringExecFns;

use crate::config::{text_in, texts_in, BlockRoot, ContextConfig, Settings};
use crate::contexts::{
    array_of, array_texts, put, refused, utf8, utf8_text, utf8_texts, Contexts, Ctxs, Outcome,
};
use crate::errno::Errno;
use crate::text::{join2, join3, joined};

verus! {

/// The parts joined by the separator.
fn join_with(parts: &Vec<String>, sep: &str) -> (r: String)
    ensures
        r@ == joined(texts_in(parts@), sep@),
{
    let ghost all = texts_in(parts@);
    let mut out = String::from_str("");
    proof {
        reveal_strlit("");
        assert(out@ =~= joined(all.take(0), sep@));
    }
    let mut i: usize = 0;
    while i < parts.len()
        invariant
            i <= parts@.len() == all.len(),
            all == texts_in(parts@),
            out@ == joined(all.take(i as int), sep@),
        decreases parts@.len() - i,
    {
        let ghost next = all.take(i + 1);
        assert(next.drop_last() =~= all.take(i as int));
        assert(next.last() == parts@[i as int]@);
        if i > 0 {
            out.append(sep);
        } else {
            assert(all.take(0) =~= Seq::<Seq<char>>::empty());
            assert(out@ + parts@[0]@ =~= parts@[0]@);
        }
        out.append(parts[i].as_str());
        i += 1;
    }
    assert(all.take(i as int) =~= all);
    out
}

// ---------------------------------------------------------------------------
// Collapsed arrays.
// ---------------------------------------------------------------------------

/// The text between quotes.
pub open spec fn quoted(s: Seq<char>) -> Seq<char> {
    "\""@ + s + "\""@
}

/// The quoted texts, separated by blanks.
pub open spec fn collapsed(texts: Seq<Seq<char>>) -> Seq<char> {
    joined(texts.map_values(|s: Seq<char>| quoted(s)), " "@)
}

/// The quoted strings of the array, separated by blanks.
pub fn collapse_str_array(array: &[Vec<u8>]) -> (r: Option<String>)
    ensures
        match utf8_texts(array_of(array@)) {
            Some(texts) => r is Some && r->0@ == collapsed(texts),
            None => r is None,
        },
{
    let texts: Vec<String> = match array_texts(array) {
        Some(v) => v,
        None => return None,
    };
    let ghost all = texts_in(texts@);
    let mut out: Vec<String> = Vec::new();
    let mut i: usize = 0;
    while i < texts.len()
        invariant
            i <= texts@.len() == all.len(),
            all == texts_in(texts@),
            out@.len() == i,
            forall|k: int| 0 <= k < i ==> #[trigger] out@[k]@ == quoted(all[k]),
        decreases texts@.len() - i,
    {
        out.push(join3("\"", texts[i].as_str(), "\""));
        i += 1;
    }
    assert(texts_in(out@) =~= all.map_values(|s: Seq<char>| quoted(s)));
    Some(join_with(&out, " "))
}

/// Each variable as a blank, the name, an equals sign and the quoted value.
pub open spec fn variables_of(vars: Seq<(String, String)>) -> Seq<char>
    decreases vars.len(),
{
    if vars.len() == 0 {
        Seq::empty()
    } else {
        variables_of(vars.drop_last()) + " "@ + vars.last().0@ + "="@ + quoted(vars.last().1@)
    }
}

fn variables(vars: &[(String, String)]) -> (r: String)
    ensures
        r@ == variables_of(vars@),
{
    let mut out = String::from_str("");
    proof {
        reveal_strlit("");
        assert(vars@.take(0) =~= Seq::<(String, String)>::empty());
        assert(out@ =~= variables_of(vars@.take(0)));
    }
    let mut i: usize = 0;
    while i < vars.len()
        invariant
            i <= vars@.len(),
            out@ == variables_of(vars@.take(i as int)),
        decreases vars@.len() - i,
    {
        let ghost next = vars@.take(i + 1);
        let ghost before = out@;
        assert(next.drop_last() =~= vars@.take(i as int));
        out.append(" ");
        out.append(vars[i].0.as_str());
        out.append("=");
        out.append(join3("\"", vars[i].1.as_str(), "\"").as_str());
        assert(out@ == variables_of(next));
        i += 1;
    }
    assert(vars@.take(i as int) =~= vars@);
    out
}

/// The environment: the array, or else the variables of this process.
pub open spec fn environment_of(
    envp: Option<Seq<Vec<u8>>>,
    vars: Seq<(String, String)>,
) -> Option<Seq<char>> {
    match envp {
        Some(array) => match utf8_texts(array_of(array)) {
            Some(texts) => Some(collapsed(texts)),
            None => None,
        },
        None => Some(variables_of(vars)),
    }
}

fn environment(envp: Option<&[Vec<u8>]>, vars: &[(String, String)]) -> (r: Option<String>)
    ensures
        text_in(r) == environment_of(slice_in(envp), vars@),
{
    match envp {
        Some(array) => collapse_str_array(array),
        None => Some(variables(vars)),
    }
}

/// The array, where there is one.
pub open spec fn slice_in(o: Option<&[Vec<u8>]>) -> Option<Seq<Vec<u8>>> {
    match o {
        Some(s) => Some(s@),
        None => None,
    }
}

// ---------------------------------------------------------------------------
// The interface.
// ---------------------------------------------------------------------------

pub open spec fn exec_set(
    c: Ctxs,
    id: u32,
    exec_path: Seq<u8>,
    argv: Option<Seq<Vec<u8>>>,
    envp: Option<Seq<Vec<u8>>>,
    vars: Seq<(String, String)>,
) -> Outcome {
    let args = match argv {
        Some(array) => match utf8_texts(array_of(array)) {
            Some(texts) => Some(collapsed(texts)),
            None => None,
        },
        None => Some(Seq::empty()),
    };
    match (utf8_text(exec_path), args, environment_of(envp, vars)) {
        (Some(path), Some(args), Some(env)) => put(
            c,
            id,
            |s: Settings|
                Settings { exec_path: Some(path), env: Some(env), args: Some(args), ..s },
        ),
        _ => refused(c, Errno::Inval),
    }
}

/// Set the program, its arguments and its environment. Without an array of
/// variables, the guest gets those of this process.
pub fn krun_set_exec(
    ctxs: &mut Contexts,
    ctx_id: u32,
    exec_path: &[u8],
    argv: Option<&[Vec<u8>]>,
    envp: Option<&[Vec<u8>]>,
    vars: &[(String, String)],
) -> (r: Result<i32, Errno>)
    ensures
        (final(ctxs)@, r) == exec_set(
            old(ctxs)@,
            ctx_id,
            exec_path@,
            slice_in(argv),
            slice_in(envp),
            vars@,
        ),
{
    let path: String = match utf8(exec_path) {
        Some(t) => t,
        None => return Err(Errno::Inval),
    };
    let args: String = match argv {
        Some(array) => match collapse_str_array(array) {
            Some(t) => t,
            None => return Err(Errno::Inval),
        },
        None => {
            proof {
                reveal_strlit("");
            }
            String::from_str("")
        },
    };
    assert(argv is None ==> args@ =~= Seq::<char>::empty());
    let env: String = match environment(envp, vars) {
        Some(t) => t,
        None => return Err(Errno::Inval),
    };
    match ctxs.find(ctx_id) {
        Some(c) => {
            c.exec_path = Some(path);
            c.env = Some(env);
            c.args = Some(args);
            Ok(0)
        },
        None => Err(Errno::NoEnt),
    }
}

pub open spec fn env_set(
    c: Ctxs,
    id: u32,
    envp: Option<Seq<Vec<u8>>>,
    vars: Seq<(String, String)>,
) -> Outcome {
    match environment_of(envp, vars) {
        Some(env) => put(c, id, |s: Settings| Settings { env: Some(env), ..s }),
        None => refused(c, Errno::Inval),
    }
}

/// Set the environment.
pub fn krun_set_env(
    ctxs: &mut Contexts,
    ctx_id: u32,
    envp: Option<&[Vec<u8>]>,
    vars: &[(String, String)],
) -> (r: Result<i32, Errno>)
    ensures
        (final(ctxs)@, r) == env_set(old(ctxs)@, ctx_id, slice_in(envp), vars@),
{
    let env: String = match environment(envp, vars) {
        Some(t) => t,
        None => return Err(Errno::Inval),
    };
    match ctxs.find(ctx_id) {
        Some(c) => {
            c.env = Some(env);
            Ok(0)
        },
        None => Err(Errno::NoEnt),
    }
}

pub open spec fn rlimits_set(c: Ctxs, id: u32, rlimits: Option<Seq<Vec<u8>>>) -> Outcome {
    match rlimits {
        None => refused(c, Errno::Inval),
        Some(array) => match utf8_texts(array_of(array)) {
            None => refused(c, Errno::Inval),
            Some(texts) => put(
                c,
                id,
                |s: Settings| Settings { rlimits: Some(quoted(joined(texts, ","@))), ..s },
            ),
        },
    }
}

/// Set the resource limits, each of them a text.
pub fn krun_set_rlimits(ctxs: &mut Contexts, ctx_id: u32, rlimits: Option<&[Vec<u8>]>) -> (r:
    Result<i32, Errno>)
    ensures
        (final(ctxs)@, r) == rlimits_set(old(ctxs)@, ctx_id, slice_in(rlimits)),
{
    let array = match rlimits {
        Some(array) => array,
        None => return Err(Errno::Inval),
    };
    let texts: Vec<String> = match array_texts(array) {
        Some(v) => v,
        None => return Err(Errno::Inval),
    };
    let limits = join3("\"", join_with(&texts, ",").as_str(), "\"");
    match ctxs.find(ctx_id) {
        Some(c) => {
            c.rlimits = Some(limits);
            Ok(0)
        },
        None => Err(Errno::NoEnt),
    }
}

pub open spec fn workdir_set(c: Ctxs, id: u32, workdir: Seq<u8>) -> Outcome {
    match utf8_text(workdir) {
        Some(t) => put(c, id, |s: Settings| Settings { workdir: Some(t), ..s }),
        None => refused(c, Errno::Inval),
    }
}

/// Set the working directory.
pub fn krun_set_workdir(ctxs: &mut Contexts, ctx_id: u32, workdir: &[u8]) -> (r: Result<
    i32,
    Errno,
>)
    ensures
        (final(ctxs)@, r) == workdir_set(old(ctxs)@, ctx_id, workdir@),
{
    let workdir: String = match utf8(workdir) {
        Some(t) => t,
        None => return Err(Errno::Inval),
    };
    match ctxs.find(ctx_id) {
        Some(c) => {
            c.workdir = Some(workdir);
            Ok(0)
        },
        None => Err(Errno::NoEnt),
    }
}

// ---------------------------------------------------------------------------
// How the settings reach the guest's init.
// ---------------------------------------------------------------------------

/// The text behind its name, or nothing.
pub open spec fn labelled(label: Seq<char>, o: Option<Seq<char>>) -> Seq<char> {
    match o {
        Some(t) => label + t,
        None => Seq::empty(),
    }
}

/// The root disk's variables.
pub open spec fn block_root_text(root: Option<BlockRoot>) -> Seq<char> {
    match root {
        None => Seq::empty(),
        Some(b) => "KRUN_BLOCK_ROOT_DEVICE="@ + b.device + labelled(
            " KRUN_BLOCK_ROOT_FSTYPE="@,
            b.fstype,
        ) + labelled(" KRUN_BLOCK_ROOT_OPTIONS="@, b.options),
    }
}

fn label(name: &str, o: &Option<String>) -> (r: String)
    ensures
        r@ == labelled(name@, text_in(*o)),
{
    match o {
        Some(t) => join2(name, t.as_str()),
        None => {
            let e = String::from_str("");
            proof {
                reveal_strlit("");
                assert(e@ =~= Seq::<char>::empty());
            }
            e
        },
    }
}

impl ContextConfig {
    pub fn get_workdir(&self) -> (r: String)
        ensures
            r@ == labelled("KRUN_WORKDIR="@, self@.workdir),
    {
        label("KRUN_WORKDIR=", &self.workdir)
    }

    pub fn get_exec_path(&self) -> (r: String)
        ensures
            r@ == labelled("KRUN_INIT="@, self@.exec_path),
    {
        label("KRUN_INIT=", &self.exec_path)
    }

    pub fn get_rlimits(&self) -> (r: String)
        ensures
            r@ == labelled("KRUN_RLIMITS="@, self@.rlimits),
    {
        label("KRUN_RLIMITS=", &self.rlimits)
    }

    pub fn get_env(&self) -> (r: String)
        ensures
            r@ == labelled(Seq::empty(), self@.env),
    {
        proof {
            reveal_strlit("");
            assert(""@ =~= Seq::<char>::empty());
        }
        label("", &self.env)
    }

    pub fn get_args(&self) -> (r: String)
        ensures
            r@ == labelled(Seq::empty(), self@.args),
    {
        proof {
            reveal_strlit("");
            assert(""@ =~= Seq::<char>::empty());
        }
        label("", &self.args)
    }

    pub fn get_block_root(&self) -> (r: String)
        ensures
            r@ == block_root_text(self@.block_root),
    {
        match &self.block_root {
            Some(b) => {
                let mut s = join2("KRUN_BLOCK_ROOT_DEVICE=", b.device.as_str());
                s.append(label(" KRUN_BLOCK_ROOT_FSTYPE=", &b.fstype).as_str());
                s.append(label(" KRUN_BLOCK_ROOT_OPTIONS=", &b.options).as_str());
                s
            },
            None => {
                let e = String::from_str("");
                proof {
                    reveal_strlit("");
                    assert(e@ =~= Seq::<char>::empty());
                }
                e
            },
        }
    }
}

} // verus!
