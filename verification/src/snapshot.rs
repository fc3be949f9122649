//! Snapshot directories: the disks that a fork moves its source to, the order
//! in which a durable save is published, and how one file is written whole.

use vstd::prelude::*;
use vstd::string::{StrSliceExecFns, StringExecFns};

use crate::text::{decimal, decimal_of, join2, join3};

verus! {

// ---------------------------------------------------------------------------
// Block pivots: lines of id<TAB>path.
// ---------------------------------------------------------------------------

/// The first character with the code, from `at` on, or the end.
pub open spec fn find_code(s: Seq<char>, code: u32, at: int) -> int
    decreases s.len() - at,
{
    if at >= s.len() || s[at] as u32 == code {
        at
    } else {
        find_code(s, code, at + 1)
    }
}

pub proof fn lemma_find_code(s: Seq<char>, code: u32, at: int)
    requires
        0 <= at <= s.len(),
    ensures
        at <= find_code(s, code, at) <= s.len(),
        find_code(s, code, at) < s.len() ==> s[find_code(s, code, at)] as u32 == code,
    decreases s.len() - at,
{
    if at < s.len() && s[at] as u32 != code {
        lemma_find_code(s, code, at + 1);
    }
}

/// The first line: up to a newline, without a carriage return before it. Text
/// that has no newline is a line as it is.
pub open spec fn first_line(s: Seq<char>) -> Seq<char> {
    let e = find_code(s, 0x0a, 0);
    if e < s.len() && e > 0 && s[e - 1] as u32 == 0x0d {
        s.subrange(0, e - 1)
    } else {
        s.subrange(0, e)
    }
}

/// What follows the first line.
pub open spec fn after_line(s: Seq<char>) -> Seq<char> {
    let e = find_code(s, 0x0a, 0);
    if e < s.len() {
        s.skip(e + 1)
    } else {
        Seq::empty()
    }
}

#[derive(Debug, Clone, Copy, PartialEq, Eq, Structural)]
pub enum PivotFault {
    /// The line, counted from 1, has no tab.
    NoTab(u64),
    /// The line, counted from 1, has no id, no path, or a NUL in its path.
    Invalid(u64),
    /// There is no line.
    Missing,
}

impl PivotFault {
    pub open spec fn text(self) -> Seq<char> {
        match self {
            PivotFault::NoTab(n) => "block pivot line "@ + decimal_of(n as nat)
                + " needs id<TAB>path"@,
            PivotFault::Invalid(n) => "invalid block pivot line "@ + decimal_of(n as nat),
            PivotFault::Missing => "at least one block pivot is required"@,
        }
    }

    pub fn message(&self) -> (r: String)
        ensures
            r@ == self.text(),
    {
        match self {
            PivotFault::NoTab(n) => join3(
                "block pivot line ",
                decimal(*n).as_str(),
                " needs id<TAB>path",
            ),
            PivotFault::Invalid(n) => crate::text::join2(
                "invalid block pivot line ",
                decimal(*n).as_str(),
            ),
            PivotFault::Missing => "at least one block pivot is required".to_string(),
        }
    }
}

/// The id and path of line number `n`.
pub open spec fn pivot_of(line: Seq<char>, n: u64) -> Result<(Seq<char>, Seq<char>), PivotFault> {
    let tab = find_code(line, 0x09, 0);
    if tab >= line.len() {
        Err(PivotFault::NoTab(n))
    } else {
        let id = line.subrange(0, tab);
        let path = line.skip(tab + 1);
        if id.len() == 0 || path.len() == 0 || find_code(path, 0, 0) < path.len() {
            Err(PivotFault::Invalid(n))
        } else {
            Ok((id, path))
        }
    }
}

/// The pivots of the lines from number `n` on, appended to `acc`, up to the
/// first fault.
pub open spec fn pivots_from(s: Seq<char>, n: u64, acc: Seq<(Seq<char>, Seq<char>)>) -> (
    Seq<(Seq<char>, Seq<char>)>,
    Option<PivotFault>,
)
    decreases s.len(),
{
    if s.len() == 0 {
        (
            acc,
            if acc.len() == 0 {
                Some(PivotFault::Missing)
            } else {
                None
            },
        )
    } else {
        match pivot_of(first_line(s), n) {
            Err(fault) => (acc, Some(fault)),
            Ok(pivot) => {
                proof {
                    lemma_find_code(s, 0x0a, 0);
                }
                pivots_from(after_line(s), (n + 1) as u64, acc.push(pivot))
            },
        }
    }
}

/// What the pairs say.
pub open spec fn pivot_texts(v: Seq<(String, String)>) -> Seq<(Seq<char>, Seq<char>)> {
    Seq::new(v.len(), |i: int| (v[i].0@, v[i].1@))
}

/// The position of the first character with the code, from `at` on.
pub(crate) fn position(s: &str, code: u32, at: usize, n: usize) -> (r: usize)
    requires
        at <= n == s@.len(),
    ensures
        r == find_code(s@, code, at as int),
        at <= r <= n,
{
    let mut i: usize = at;
    while i < n && s.get_char(i) as u32 != code
        invariant
            at <= i <= n == s@.len(),
            find_code(s@, code, at as int) == find_code(s@, code, i as int),
        decreases n - i,
    {
        i += 1;
    }
    i
}

fn read_pivot(line: &str, number: u64) -> (r: Result<(String, String), PivotFault>)
    ensures
        match pivot_of(line@, number) {
            Ok((id, path)) => r is Ok && r->Ok_0.0@ == id && r->Ok_0.1@ == path,
            Err(fault) => r is Err && r->Err_0 == fault,
        },
{
    let n: usize = line.unicode_len();
    let tab: usize = position(line, 0x09, 0, n);
    if tab >= n {
        return Err(PivotFault::NoTab(number));
    }
    let id = line.substring_char(0, tab);
    let path = line.substring_char(tab + 1, n);
    assert(path@ =~= line@.skip(tab + 1));
    let m: usize = path.unicode_len();
    if tab == 0 || m == 0 || position(path, 0, 0, m) < m {
        return Err(PivotFault::Invalid(number));
    }
    Ok((String::from_str(id), String::from_str(path)))
}

/// The block pivots of a fork: the pairs up to the first fault, which is
/// reported after them.
pub fn parse_block_pivots(contents: &str) -> (r: (Vec<(String, String)>, Option<PivotFault>))
    requires
        contents@.len() < u64::MAX,
    ensures
        (pivot_texts(r.0@), r.1) == pivots_from(contents@, 1, Seq::empty()),
{
    let n: usize = contents.unicode_len();
    let mut out: Vec<(String, String)> = Vec::new();
    let mut at: usize = 0;
    let mut number: u64 = 1;
    let ghost whole = pivots_from(contents@, 1, Seq::empty());
    assert(contents@.skip(0) =~= contents@);
    assert(pivot_texts(out@) =~= Seq::<(Seq<char>, Seq<char>)>::empty());
    while at < n
        invariant
            at <= n == contents@.len(),
            n < u64::MAX,
            number <= at + 1,
            whole == pivots_from(contents@, 1, Seq::empty()),
            whole == pivots_from(contents@.skip(at as int), number, pivot_texts(out@)),
        decreases n - at,
    {
        let ghost s = contents@.skip(at as int);
        let ghost acc = pivot_texts(out@);
        let e: usize = position(contents, 0x0a, at, n);
        proof {
            lemma_find_skip(contents@, 0x0a, at as int, at as int);
        }
        let end: usize = if e < n && e > at && contents.get_char(e - 1) as u32 == 0x0d {
            e - 1
        } else {
            e
        };
        let line = contents.substring_char(at, end);
        assert(line@ =~= first_line(s));
        match read_pivot(line, number) {
            Err(fault) => return (out, Some(fault)),
            Ok(pivot) => {
                let ghost text = (pivot.0@, pivot.1@);
                out.push(pivot);
                assert(pivot_texts(out@) =~= acc.push(text));
            },
        }
        if e < n {
            assert(after_line(s) =~= contents@.skip(e + 1));
            at = e + 1;
        } else {
            assert(after_line(s) =~= contents@.skip(n as int));
            at = n;
        }
        number += 1;
    }
    if out.len() == 0 {
        (out, Some(PivotFault::Missing))
    } else {
        (out, None)
    }
}

proof fn lemma_find_skip(s: Seq<char>, code: u32, base: int, at: int)
    requires
        0 <= base <= at <= s.len(),
    ensures
        find_code(s.skip(base), code, at - base) == find_code(s, code, at) - base,
    decreases s.len() - at,
{
    if at < s.len() && s[at] as u32 != code {
        lemma_find_skip(s, code, base, at + 1);
    }
}

// ---------------------------------------------------------------------------
// Publishing a durable save.
// ---------------------------------------------------------------------------

/// A step of publishing a durable save. Each file is written under a partial
/// name first.
#[derive(Debug, Clone, Copy, PartialEq, Eq, Structural)]
pub enum PublishStep {
    SyncMemory,
    CreateCheckpoint,
    WriteCheckpoint,
    SyncCheckpoint,
    CreateManifest,
    WriteManifest,
    SyncManifest,
    PublishMemory,
    PublishCheckpoint,
    PublishManifest,
}

/// The steps, in order. The manifest is published last: its presence is the
/// completeness marker.
pub open spec fn publish_steps() -> Seq<PublishStep> {
    seq![
        PublishStep::SyncMemory,
        PublishStep::CreateCheckpoint,
        PublishStep::WriteCheckpoint,
        PublishStep::SyncCheckpoint,
        PublishStep::CreateManifest,
        PublishStep::WriteManifest,
        PublishStep::SyncManifest,
        PublishStep::PublishMemory,
        PublishStep::PublishCheckpoint,
        PublishStep::PublishManifest,
    ]
}

/// The steps that publish a durable save.
pub fn publish_portable_save() -> (r: Vec<PublishStep>)
    ensures
        r@ == publish_steps(),
{
    let v: Vec<PublishStep> = vec![
        PublishStep::SyncMemory,
        PublishStep::CreateCheckpoint,
        PublishStep::WriteCheckpoint,
        PublishStep::SyncCheckpoint,
        PublishStep::CreateManifest,
        PublishStep::WriteManifest,
        PublishStep::SyncManifest,
        PublishStep::PublishMemory,
        PublishStep::PublishCheckpoint,
        PublishStep::PublishManifest,
    ];
    assert(v@ =~= publish_steps());
    v
}

impl PublishStep {
    pub open spec fn label(self) -> Seq<char> {
        match self {
            PublishStep::SyncMemory => "sync memory image"@,
            PublishStep::CreateCheckpoint => "create checkpoint state"@,
            PublishStep::WriteCheckpoint => "write checkpoint state"@,
            PublishStep::SyncCheckpoint => "sync checkpoint state"@,
            PublishStep::CreateManifest => "create snapshot manifest"@,
            PublishStep::WriteManifest => "write snapshot manifest"@,
            PublishStep::SyncManifest => "sync snapshot manifest"@,
            PublishStep::PublishMemory => "publish memory image"@,
            PublishStep::PublishCheckpoint => "publish checkpoint state"@,
            PublishStep::PublishManifest => "publish snapshot manifest"@,
        }
    }

    /// The description of the step's failure.
    pub fn failure(&self, error: &str) -> (r: String)
        ensures
            r@ == self.label() + ": "@ + error@,
    {
        let s = match self {
            PublishStep::SyncMemory => "sync memory image",
            PublishStep::CreateCheckpoint => "create checkpoint state",
            PublishStep::WriteCheckpoint => "write checkpoint state",
            PublishStep::SyncCheckpoint => "sync checkpoint state",
            PublishStep::CreateManifest => "create snapshot manifest",
            PublishStep::WriteManifest => "write snapshot manifest",
            PublishStep::SyncManifest => "sync snapshot manifest",
            PublishStep::PublishMemory => "publish memory image",
            PublishStep::PublishCheckpoint => "publish checkpoint state",
            PublishStep::PublishManifest => "publish snapshot manifest",
        };
        join3(s, ": ", error)
    }

    /// What the step gives its final name to.
    pub open spec fn publishes(self) -> bool {
        self == PublishStep::PublishMemory || self == PublishStep::PublishCheckpoint || self
            == PublishStep::PublishManifest
    }
}

/// A reader never accepts a partial save: by the time the manifest has its
/// name, the memory image and the checkpoint have theirs, and all three are
/// on disk.
pub proof fn a_manifest_marks_a_complete_save(i: int)
    requires
        0 <= i < publish_steps().len(),
        publish_steps()[i] == PublishStep::PublishManifest,
    ensures
        forall|s: PublishStep| #[trigger]
            s.publishes() && s != PublishStep::PublishManifest ==> exists|k: int|
                0 <= k < i && publish_steps()[k] == s,
        exists|k: int| 0 <= k < i && publish_steps()[k] == PublishStep::SyncMemory,
        exists|k: int| 0 <= k < i && publish_steps()[k] == PublishStep::SyncCheckpoint,
        exists|k: int| 0 <= k < i && publish_steps()[k] == PublishStep::SyncManifest,
{
    assert(publish_steps()[0] == PublishStep::SyncMemory);
    assert(publish_steps()[3] == PublishStep::SyncCheckpoint);
    assert(publish_steps()[6] == PublishStep::SyncManifest);
    assert(publish_steps()[7] == PublishStep::PublishMemory);
    assert(publish_steps()[8] == PublishStep::PublishCheckpoint);
}

// ---------------------------------------------------------------------------
// Writing one file whole.
// ---------------------------------------------------------------------------

/// A step of writing a file so that it is either whole or not there.
#[derive(Debug, Clone, Copy, PartialEq, Eq, Structural)]
pub enum WriteStep {
    /// Create the partial file, which must not exist.
    CreatePartial,
    Write,
    Sync,
    /// Give the partial file its final name too, which must be free.
    Link,
    /// Give up the partial name. That this fails is of no consequence.
    RemovePartial,
    /// Make the final name durable.
    SyncParent,
}

/// What is taken away again where a step fails.
#[derive(Debug, Clone, Copy, PartialEq, Eq, Structural)]
pub enum CleanStep {
    RemoveFile,
    RemovePartial,
}

/// The steps, in order; the last one only where the path has a parent.
pub open spec fn write_steps(has_parent: bool) -> Seq<WriteStep> {
    let steps = seq![
        WriteStep::CreatePartial,
        WriteStep::Write,
        WriteStep::Sync,
        WriteStep::Link,
        WriteStep::RemovePartial,
    ];
    if has_parent {
        steps.push(WriteStep::SyncParent)
    } else {
        steps
    }
}

/// The steps that write a file whole.
pub fn atomic_write_file(has_parent: bool) -> (r: Vec<WriteStep>)
    ensures
        r@ == write_steps(has_parent),
{
    let mut v: Vec<WriteStep> = vec![
        WriteStep::CreatePartial,
        WriteStep::Write,
        WriteStep::Sync,
        WriteStep::Link,
        WriteStep::RemovePartial,
    ];
    if has_parent {
        v.push(WriteStep::SyncParent);
    }
    assert(v@ =~= write_steps(has_parent));
    v
}

/// The name that a file has while it is written.
pub fn partial_name(file_name: &str) -> (r: String)
    ensures
        r@ == file_name@ + ".partial"@,
{
    join2(file_name, ".partial")
}

impl WriteStep {
    /// Whether the write goes on where the step fails.
    pub open spec fn is_optional(self) -> bool {
        self == WriteStep::RemovePartial
    }

    /// What is taken away where the step ends the write.
    pub open spec fn cleanup_of(self) -> Seq<CleanStep> {
        if self == WriteStep::SyncParent {
            seq![CleanStep::RemoveFile, CleanStep::RemovePartial]
        } else {
            seq![CleanStep::RemovePartial]
        }
    }

    /// What to take away now that the step has failed; None where the write
    /// goes on.
    pub fn failed(&self) -> (r: Option<Vec<CleanStep>>)
        ensures
            (r is None) == self.is_optional(),
            r matches Some(v) ==> v@ == self.cleanup_of(),
    {
        match self {
            WriteStep::RemovePartial => None,
            WriteStep::SyncParent => {
                let v: Vec<CleanStep> = vec![CleanStep::RemoveFile, CleanStep::RemovePartial];
                assert(v@ =~= self.cleanup_of());
                Some(v)
            },
            _ => {
                let v: Vec<CleanStep> = vec![CleanStep::RemovePartial];
                assert(v@ =~= self.cleanup_of());
                Some(v)
            },
        }
    }
}

/// Which of the two names are taken, and whether what bears the final one was
/// written by this write and synced before.
pub struct Names {
    pub file: bool,
    pub partial: bool,
    pub synced: bool,
}

impl Names {
    /// The names after a step; a step that failed changes nothing.
    pub open spec fn after(self, step: WriteStep, done: bool) -> Names {
        if !done {
            self
        } else {
            match step {
                WriteStep::CreatePartial => Names { partial: true, synced: false, ..self },
                WriteStep::Write => Names { synced: false, ..self },
                WriteStep::Sync => Names { synced: true, ..self },
                WriteStep::Link => Names { file: true, ..self },
                WriteStep::RemovePartial => Names { partial: false, ..self },
                WriteStep::SyncParent => self,
            }
        }
    }

    /// The names after the first `n` steps, where giving up the partial name
    /// may have failed.
    pub open spec fn after_steps(self, steps: Seq<WriteStep>, n: nat, removed: bool) -> Names
        decreases n,
    {
        if n == 0 || n > steps.len() {
            self
        } else {
            let step = steps[n - 1];
            self.after_steps(steps, (n - 1) as nat, removed).after(
                step,
                removed || !step.is_optional(),
            )
        }
    }

    /// The names after the clean-up.
    pub open spec fn cleaned(self, steps: Seq<CleanStep>) -> Names
        decreases steps.len(),
    {
        if steps.len() == 0 {
            self
        } else {
            (match steps[0] {
                CleanStep::RemoveFile => Names { file: false, ..self },
                CleanStep::RemovePartial => Names { partial: false, ..self },
            }).cleaned(steps.drop_first())
        }
    }
}

/// A file that is written whole appears under its name only once all of it is
/// on disk, and a write that goes through leaves it there.
pub proof fn a_file_appears_whole(before: Names, has_parent: bool, n: nat, removed: bool)
    requires
        n <= write_steps(has_parent).len(),
        !before.file,
    ensures
        ({
            let now = before.after_steps(write_steps(has_parent), n, removed);
            &&& now.file ==> now.synced
            &&& n == write_steps(has_parent).len() ==> now.file
        }),
{
    reveal_with_fuel(Names::after_steps, 7);
}

/// A write that fails leaves the final name as it was, free or taken, and no
/// partial file.
pub proof fn a_failed_write_leaves_nothing(before: Names, has_parent: bool, n: nat, removed: bool)
    requires
        n < write_steps(has_parent).len(),
        !write_steps(has_parent)[n as int].is_optional(),
        // The final name can only be given where it is free.
        before.file ==> n <= 3,
    ensures
        ({
            let step = write_steps(has_parent)[n as int];
            let left = before.after_steps(write_steps(has_parent), n, removed).cleaned(
                step.cleanup_of(),
            );
            left.file == before.file && !left.partial
        }),
{
    reveal_with_fuel(Names::after_steps, 7);
    reveal_with_fuel(Names::cleaned, 3);
    let step = write_steps(has_parent)[n as int];
    assert(step.cleanup_of().drop_first() =~= if step == WriteStep::SyncParent {
        seq![CleanStep::RemovePartial]
    } else {
        Seq::<CleanStep>::empty()
    });
    assert(seq![CleanStep::RemovePartial].drop_first() =~= Seq::<CleanStep>::empty());
}

} // verus!
