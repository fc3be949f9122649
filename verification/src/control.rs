//! The control socket: one command per connection, answered by one line.
//!
//! A command is a verb (case-insensitive) and an optional argument. The
//! embedder reads it byte by byte into a [`CommandBuffer`], performs the
//! [`Operation`] that [`first_step`] asks for, and answers with the text of
//! the [`Reply`] that the outcome calls for.

use vstd::prelude::*;
use vstd::string::{StrSliceExecFns, StringExecFns};

use crate::manifest::ErrorKind;
use crate::text::{
    decimal, decimal_of, is_space, join3, signed_decimal, signed_decimal_of, space, trim, trimmed,
};

verus! {

/// The longest command.
pub const MAX_CONTROL_COMMAND_BYTES: usize = 4096;

/// Where the first line of the input ends, from `at` on.
pub open spec fn line_end(input: Seq<u8>, at: int) -> int
    decreases input.len() - at,
{
    if at >= input.len() || input[at] == 0x0a {
        at
    } else {
        line_end(input, at + 1)
    }
}

/// The command is longer than it may be.
#[derive(Debug, Clone, Copy, PartialEq, Eq, Structural)]
pub struct CommandTooLong;

impl CommandTooLong {
    pub fn kind(&self) -> (r: ErrorKind)
        ensures
            r == ErrorKind::InvalidData,
    {
        ErrorKind::InvalidData
    }

    pub fn message(&self) -> (r: String)
        ensures
            r@ == "control command exceeds 4096 bytes"@,
    {
        "control command exceeds 4096 bytes".to_string()
    }
}

/// What to do after a byte.
#[derive(Debug, Clone, Copy, PartialEq, Eq, Structural)]
pub enum Fed {
    /// Read another byte.
    More,
    /// The command is complete.
    Complete,
    /// The command is refused.
    TooLong,
}

/// A command while it is read.
pub struct CommandBuffer {
    bytes: Vec<u8>,
}

impl View for CommandBuffer {
    type V = Seq<u8>;

    closed spec fn view(&self) -> Seq<u8> {
        self.bytes@
    }
}

impl CommandBuffer {
    pub fn new() -> (r: Self)
        ensures
            r@ == Seq::<u8>::empty(),
    {
        CommandBuffer { bytes: Vec::new() }
    }

    /// Take the next byte, or the end of the stream. A command ends at a
    /// newline or at the end.
    pub fn feed(&mut self, byte: Option<u8>) -> (r: Fed)
        ensures
            match byte {
                None => r == Fed::Complete && final(self)@ == old(self)@,
                Some(b) => if b == 0x0a {
                    r == Fed::Complete && final(self)@ == old(self)@
                } else if old(self)@.len() == MAX_CONTROL_COMMAND_BYTES {
                    r == Fed::TooLong && final(self)@ == old(self)@
                } else {
                    r == Fed::More && final(self)@ == old(self)@.push(b)
                },
            },
    {
        match byte {
            None => Fed::Complete,
            Some(b) => {
                if b == 0x0a {
                    Fed::Complete
                } else if self.bytes.len() == MAX_CONTROL_COMMAND_BYTES {
                    Fed::TooLong
                } else {
                    self.bytes.push(b);
                    Fed::More
                }
            },
        }
    }

    /// The command so far.
    pub fn into_bytes(self) -> (r: Vec<u8>)
        ensures
            r@ == self@,
    {
        self.bytes
    }
}

/// The command at the front of the input: its first line, without the
/// newline.
pub fn read_control_command(input: &[u8]) -> (r: Result<Vec<u8>, CommandTooLong>)
    ensures
        ({
            let end = line_end(input@, 0);
            match r {
                Ok(command) => end <= MAX_CONTROL_COMMAND_BYTES && command@ == input@.subrange(
                    0,
                    end,
                ),
                Err(_) => end > MAX_CONTROL_COMMAND_BYTES,
            }
        }),
{
    let mut buffer = CommandBuffer::new();
    let mut i: usize = 0;
    assert(input@.subrange(0, 0) =~= Seq::<u8>::empty());
    loop
        invariant
            i <= input@.len(),
            i <= MAX_CONTROL_COMMAND_BYTES,
            buffer@ == input@.subrange(0, i as int),
            line_end(input@, 0) == line_end(input@, i as int),
        decreases input@.len() - i,
    {
        let byte = if i < input.len() {
            Some(input[i])
        } else {
            None
        };
        match buffer.feed(byte) {
            Fed::Complete => return Ok(buffer.into_bytes()),
            Fed::TooLong => {
                proof {
                    lemma_line_end(input@, i + 1);
                }
                return Err(CommandTooLong);
            },
            Fed::More => {
                assert(input@.subrange(0, i + 1) =~= input@.subrange(0, i as int).push(
                    input@[i as int],
                ));
                i += 1;
            },
        }
    }
}

proof fn lemma_line_end(input: Seq<u8>, at: int)
    ensures
        line_end(input, at) >= at,
    decreases input.len() - at,
{
    if at < input.len() && input[at] != 0x0a {
        lemma_line_end(input, at + 1);
    }
}

/// A command holds no newline and at most 4096 bytes.
pub proof fn commands_are_single_lines(input: Seq<u8>, i: int)
    requires
        0 <= i < line_end(input, 0),
    ensures
        i < input.len(),
        input[i] != 0x0a,
{
    lemma_no_newline(input, 0, i);
}

proof fn lemma_no_newline(input: Seq<u8>, at: int, i: int)
    requires
        0 <= at <= i < line_end(input, at),
    ensures
        i < input.len(),
        input[i] != 0x0a,
    decreases input.len() - at,
{
    if at < input.len() && input[at] != 0x0a && at < i {
        lemma_no_newline(input, at + 1, i);
    }
}

// ---------------------------------------------------------------------------
// Parsing.
// ---------------------------------------------------------------------------

#[derive(Debug, Clone, Copy, PartialEq, Eq, Structural)]
pub enum Verb {
    Pause,
    Resume,
    Status,
    Balloon,
    Checkpoint,
    Restore,
    Save,
    PrepareSave,
    FinishSave,
    CancelSave,
    Fork,
    ForkContinue,
    ForkContinuePaged,
    RollbackFork,
}

/// Which commands the build serves.
#[derive(Debug, Clone, Copy, PartialEq, Eq, Structural)]
pub struct Platform {
    pub balloon: bool,
    pub snapshot: bool,
    pub deferred_save: bool,
    pub fork: bool,
    pub fork_continue: bool,
    pub fork_continue_paged: bool,
}

impl Platform {
    pub open spec fn provides(self, v: Verb) -> bool {
        match v {
            Verb::Pause | Verb::Resume | Verb::Status => true,
            Verb::Balloon => self.balloon,
            Verb::Checkpoint | Verb::Restore | Verb::Save => self.snapshot,
            Verb::PrepareSave | Verb::FinishSave | Verb::CancelSave => self.deferred_save,
            Verb::Fork | Verb::RollbackFork => self.fork,
            Verb::ForkContinue => self.fork_continue,
            Verb::ForkContinuePaged => self.fork_continue_paged,
        }
    }

    pub fn serves(&self, v: Verb) -> (r: bool)
        ensures
            r == self.provides(v),
    {
        match v {
            Verb::Pause | Verb::Resume | Verb::Status => true,
            Verb::Balloon => self.balloon,
            Verb::Checkpoint | Verb::Restore | Verb::Save => self.snapshot,
            Verb::PrepareSave | Verb::FinishSave | Verb::CancelSave => self.deferred_save,
            Verb::Fork | Verb::RollbackFork => self.fork,
            Verb::ForkContinue => self.fork_continue,
            Verb::ForkContinuePaged => self.fork_continue_paged,
        }
    }
}

/// The code of a character, with ASCII letters in upper case.
pub open spec fn upper_code(c: char) -> int {
    let v = c as u32;
    if 0x61 <= v <= 0x7a {
        v - 0x20
    } else {
        v as int
    }
}

/// The word is the name, whatever the case of its ASCII letters.
pub open spec fn is_word(word: Seq<char>, name: Seq<char>) -> bool {
    word.len() == name.len() && forall|i: int|
        0 <= i < word.len() ==> upper_code(#[trigger] word[i]) == name[i] as u32
}

impl Verb {
    pub open spec fn name(self) -> Seq<char> {
        match self {
            Verb::Pause => "PAUSE"@,
            Verb::Resume => "RESUME"@,
            Verb::Status => "STATUS"@,
            Verb::Balloon => "BALLOON"@,
            Verb::Checkpoint => "CHECKPOINT"@,
            Verb::Restore => "RESTORE"@,
            Verb::Save => "SAVE"@,
            Verb::PrepareSave => "PREPARE_SAVE"@,
            Verb::FinishSave => "FINISH_SAVE"@,
            Verb::CancelSave => "CANCEL_SAVE"@,
            Verb::Fork => "FORK"@,
            Verb::ForkContinue => "FORK_CONTINUE"@,
            Verb::ForkContinuePaged => "FORK_CONTINUE_PAGED"@,
            Verb::RollbackFork => "ROLLBACK_FORK"@,
        }
    }
}

fn is_named(word: &str, name: &str) -> (r: bool)
    ensures
        r == is_word(word@, name@),
{
    let n: usize = word.unicode_len();
    if n != name.unicode_len() {
        return false;
    }
    let mut i: usize = 0;
    while i < n
        invariant
            i <= n == word@.len() == name@.len(),
            forall|k: int| 0 <= k < i ==> upper_code(#[trigger] word@[k]) == name@[k] as u32,
        decreases n - i,
    {
        let v: u32 = word.get_char(i) as u32;
        let upper: u32 = if 0x61 <= v && v <= 0x7a {
            v - 0x20
        } else {
            v
        };
        if upper != name.get_char(i) as u32 {
            assert(upper_code(word@[i as int]) != name@[i as int] as u32);
            return false;
        }
        i += 1;
    }
    true
}

/// The first verb in the list of names.
pub open spec fn verb_of(word: Seq<char>) -> Option<Verb> {
    if is_word(word, "PAUSE"@) {
        Some(Verb::Pause)
    } else if is_word(word, "RESUME"@) {
        Some(Verb::Resume)
    } else if is_word(word, "STATUS"@) {
        Some(Verb::Status)
    } else if is_word(word, "BALLOON"@) {
        Some(Verb::Balloon)
    } else if is_word(word, "CHECKPOINT"@) {
        Some(Verb::Checkpoint)
    } else if is_word(word, "RESTORE"@) {
        Some(Verb::Restore)
    } else if is_word(word, "SAVE"@) {
        Some(Verb::Save)
    } else if is_word(word, "PREPARE_SAVE"@) {
        Some(Verb::PrepareSave)
    } else if is_word(word, "FINISH_SAVE"@) {
        Some(Verb::FinishSave)
    } else if is_word(word, "CANCEL_SAVE"@) {
        Some(Verb::CancelSave)
    } else if is_word(word, "FORK"@) {
        Some(Verb::Fork)
    } else if is_word(word, "FORK_CONTINUE"@) {
        Some(Verb::ForkContinue)
    } else if is_word(word, "FORK_CONTINUE_PAGED"@) {
        Some(Verb::ForkContinuePaged)
    } else if is_word(word, "ROLLBACK_FORK"@) {
        Some(Verb::RollbackFork)
    } else {
        None
    }
}

fn find_verb(word: &str) -> (r: Option<Verb>)
    ensures
        r == verb_of(word@),
{
    if is_named(word, "PAUSE") {
        Some(Verb::Pause)
    } else if is_named(word, "RESUME") {
        Some(Verb::Resume)
    } else if is_named(word, "STATUS") {
        Some(Verb::Status)
    } else if is_named(word, "BALLOON") {
        Some(Verb::Balloon)
    } else if is_named(word, "CHECKPOINT") {
        Some(Verb::Checkpoint)
    } else if is_named(word, "RESTORE") {
        Some(Verb::Restore)
    } else if is_named(word, "SAVE") {
        Some(Verb::Save)
    } else if is_named(word, "PREPARE_SAVE") {
        Some(Verb::PrepareSave)
    } else if is_named(word, "FINISH_SAVE") {
        Some(Verb::FinishSave)
    } else if is_named(word, "CANCEL_SAVE") {
        Some(Verb::CancelSave)
    } else if is_named(word, "FORK") {
        Some(Verb::Fork)
    } else if is_named(word, "FORK_CONTINUE") {
        Some(Verb::ForkContinue)
    } else if is_named(word, "FORK_CONTINUE_PAGED") {
        Some(Verb::ForkContinuePaged)
    } else if is_named(word, "ROLLBACK_FORK") {
        Some(Verb::RollbackFork)
    } else {
        None
    }
}

/// A verb that is found has the word as its name.
pub proof fn verbs_are_found_by_name(word: Seq<char>)
    ensures
        verb_of(word) matches Some(v) ==> is_word(word, v.name()),
{
}

/// The first whitespace of the text, from `at` on, or its end.
pub open spec fn word_end(s: Seq<char>, at: int) -> int
    decreases s.len() - at,
{
    if at >= s.len() || is_space(s[at]) {
        at
    } else {
        word_end(s, at + 1)
    }
}

/// The verb of a command line.
pub open spec fn verb_word(line: Seq<char>) -> Seq<char> {
    let t = trimmed(line);
    t.subrange(0, word_end(t, 0))
}

/// The argument of a command line: what follows the first whitespace,
/// trimmed. Its case is preserved.
pub open spec fn argument(line: Seq<char>) -> Seq<char> {
    let t = trimmed(line);
    let e = word_end(t, 0);
    if e < t.len() {
        trimmed(t.subrange(e + 1, t.len() as int))
    } else {
        Seq::empty()
    }
}

/// A command line: its verb, where the platform serves it, and its argument.
#[derive(Debug, Clone)]
pub struct Command {
    pub verb: Option<Verb>,
    pub arg: String,
}

/// Split a line into a verb (case-insensitive) and an optional argument,
/// preserving the argument's case.
pub fn parse_command(line: &str, platform: &Platform) -> (r: Command)
    ensures
        r.verb == (match verb_of(verb_word(line@)) {
            Some(v) => if platform.provides(v) {
                Some(v)
            } else {
                None
            },
            None => None,
        }),
        r.arg@ == argument(line@),
{
    let t = trim(line);
    let n: usize = t.unicode_len();
    let mut e: usize = 0;
    while e < n && !space(t.get_char(e))
        invariant
            e <= n == t@.len(),
            word_end(t@, 0) == word_end(t@, e as int),
        decreases n - e,
    {
        e += 1;
    }
    let word = t.substring_char(0, e);
    let arg = if e < n {
        String::from_str(trim(t.substring_char(e + 1, n)))
    } else {
        String::new()
    };
    let verb = match find_verb(word) {
        Some(v) => if platform.serves(v) {
            Some(v)
        } else {
            None
        },
        None => None,
    };
    Command { verb, arg }
}

/// The text of a command that need not be UTF-8: see `String::from_utf8_lossy`.
pub uninterp spec fn lossy_text(bytes: Seq<u8>) -> Seq<char>;

/// `String::from_utf8_lossy`: the text that the bytes encode, with U+FFFD for
/// what is not valid UTF-8. Claims that it is a function of the bytes, and
/// that bytes that are valid UTF-8 are decoded as such.
#[verifier::external_body]
fn lossy(bytes: &[u8]) -> (r: String)
    ensures
        r@ == lossy_text(bytes@),
        vstd::utf8::valid_utf8(bytes@) ==> r@ == vstd::utf8::decode_utf8(bytes@),
{
    String::from_utf8_lossy(bytes).into_owned()
}

// ---------------------------------------------------------------------------
// Numbers.
// ---------------------------------------------------------------------------

/// The value of decimal digits; None where there is something else.
pub open spec fn digits_value(s: Seq<char>) -> Option<nat>
    decreases s.len(),
{
    if s.len() == 0 {
        Some(0)
    } else {
        let d = s.last() as u32;
        match digits_value(s.drop_last()) {
            None => None,
            Some(v) => if 0x30 <= d <= 0x39 {
                Some(v * 10 + (d - 0x30) as nat)
            } else {
                None
            },
        }
    }
}

/// The digits behind an optional plus sign.
pub open spec fn unsigned_part(s: Seq<char>) -> Seq<char> {
    if s.len() > 0 && s[0] as u32 == 0x2b {
        s.drop_first()
    } else {
        s
    }
}

/// The number that a text is in decimal, with an optional plus sign, where it
/// is at most `max`.
pub open spec fn number_of(s: Seq<char>, max: nat) -> Option<nat> {
    let d = unsigned_part(s);
    match digits_value(d) {
        Some(v) => if d.len() > 0 && v <= max {
            Some(v)
        } else {
            None
        },
        None => None,
    }
}

proof fn lemma_digits_prefix(s: Seq<char>, i: int)
    requires
        0 <= i <= s.len(),
    ensures
        digits_value(s) matches Some(v) ==> (digits_value(s.subrange(0, i)) matches Some(w) && w
            <= v),
    decreases s.len(),
{
    if i < s.len() {
        assert(s.drop_last().subrange(0, i) =~= s.subrange(0, i));
        lemma_digits_prefix(s.drop_last(), i);
    } else {
        assert(s.subrange(0, i) =~= s);
    }
}

/// Parse an unsigned decimal number of at most `max`.
pub fn parse_number(s: &str, max: u64) -> (r: Option<u64>)
    ensures
        match r {
            Some(v) => number_of(s@, max as nat) == Some(v as nat),
            None => number_of(s@, max as nat) is None,
        },
{
    let n: usize = s.unicode_len();
    let from: usize = if n > 0 && s.get_char(0) as u32 == 0x2b {
        1
    } else {
        0
    };
    let ghost d = unsigned_part(s@);
    assert(d =~= s@.subrange(from as int, n as int));
    if from == n {
        return None;
    }
    let mut v: u64 = 0;
    let mut i: usize = from;
    assert(d.subrange(0, 0) =~= Seq::<char>::empty());
    while i < n
        invariant
            from <= i <= n == s@.len(),
            from < n,
            d == unsigned_part(s@),
            d =~= s@.subrange(from as int, n as int),
            v <= max,
            digits_value(d.subrange(0, i - from)) == Some(v as nat),
        decreases n - i,
    {
        let c: u32 = s.get_char(i) as u32;
        proof {
            assert(d.subrange(0, i - from + 1).drop_last() =~= d.subrange(0, i - from));
            assert(d.subrange(0, i - from + 1).last() == s@[i as int]);
            lemma_digits_prefix(d, i - from + 1);
        }
        if c < 0x30 || c > 0x39 {
            return None;
        }
        let next: u128 = v as u128 * 10 + (c - 0x30) as u128;
        if next > max as u128 {
            return None;
        }
        v = next as u64;
        i += 1;
    }
    assert(d.subrange(0, n - from) =~= d);
    Some(v)
}

// ---------------------------------------------------------------------------
// Operations and replies.
// ---------------------------------------------------------------------------

/// Something to do to the VM.
#[derive(Debug, Clone)]
pub enum Operation {
    Pause,
    Resume,
    Status,
    BalloonQuery,
    /// To a target in MiB.
    BalloonSet(u32),
    /// Capture VM/vCPU/device state + guest memory into an in-process stash
    /// keyed by the id. The VM is left paused.
    Checkpoint(String),
    /// Rewind the (paused) VM to a stashed checkpoint, which is consumed.
    Restore(String),
    /// Write a self-contained, process-independent VM checkpoint to the
    /// directory and leave the VM paused.
    Save(String),
    /// Capture an immutable COW RAM generation and leave the VM paused.
    PrepareSave(String),
    /// Persist the retained generation.
    FinishSave(String),
    /// Release the retained generation.
    CancelSave(String),
    /// Capture a fork checkpoint to the directory and leave the VM frozen as
    /// the CoW base.
    Fork(String),
    /// Create an immutable generation while the VM continues.
    ForkContinue { dir: String, paged: bool },
    /// Undo a fork.
    RollbackFork(String),
}

/// What a command comes to: an operation, or a reply at once.
#[derive(Debug, Clone)]
pub enum Step {
    Perform(Operation),
    Answer(Reply),
}

/// The answer to a command. Texts in it are the embedder's descriptions of
/// errors, and names of files and states.
#[derive(Debug, Clone)]
pub enum Reply {
    EmptyCommand,
    UnknownCommand,
    CheckpointIdRequired,
    SnapshotDirRequired,
    ForkDirRequired,
    BalloonArgument,
    Paused,
    Running,
    /// The run state.
    State(String),
    PagerFailed(String),
    /// Target and actual size, in pages of 4 KiB.
    Balloon { target_pages: u32, actual_pages: u32 },
    BalloonTarget(u32),
    NoDevice(String),
    Checkpointed { id: String, bytes: u64 },
    CheckpointFailed(String),
    NoCheckpoint(String),
    Restored(String),
    RestoreFailed(String),
    CreateFailed { dir: String, error: String },
    Saved { bytes: u64, regions: u64, paused: bool },
    ResumeAfterSaveFailed { error: String, resume_error: String },
    SavePending,
    NotSupported(String),
    CaptureFailed(String),
    Prepared,
    NoPreparedSave,
    StartSaveFailed(String),
    Canceled,
    NoSaveToCancel,
    NoMemfd { golden: bool },
    ForkFailed { continuing: bool, error: String },
    Forked { pid: i32, regions: u64 },
    ForkedGeneration { guardian: bool, pid: i32, regions: u64, disks: u64 },
    BlockPivots(String),
    SourceResumed { what: GenerationFile, error: String },
    RollbackRead { path: String, error: String },
    RollbackDecode(String),
    RollbackFailed(String),
    /// The fork failed and so did its rollback.
    ForkLost { failure: String, error: String, recovery: String },
    /// The fork was rolled back, and what it left could not all be removed.
    ForkUncleaned { failure: String, errors: String },
    /// Any other failure.
    Failed(String),
}

/// A file of a generation.
#[derive(Debug, Clone, Copy, PartialEq, Eq, Structural)]
pub enum GenerationFile {
    Checkpoint,
    Manifest,
    GuardianManifest,
}

impl GenerationFile {
    pub open spec fn label(self) -> Seq<char> {
        match self {
            GenerationFile::Checkpoint => "checkpoint"@,
            GenerationFile::Manifest => "manifest"@,
            GenerationFile::GuardianManifest => "guardian manifest"@,
        }
    }

    pub fn name(&self) -> (r: String)
        ensures
            r@ == self.label(),
    {
        let s = match self {
            GenerationFile::Checkpoint => "checkpoint",
            GenerationFile::Manifest => "manifest",
            GenerationFile::GuardianManifest => "guardian manifest",
        };
        s.to_string()
    }
}

impl Reply {
    /// The line that is sent.
    pub open spec fn line(self) -> Seq<char> {
        match self {
            Reply::EmptyCommand => "ERR EINVAL empty command\n"@,
            Reply::UnknownCommand => "ERR EINVAL unknown command\n"@,
            Reply::CheckpointIdRequired => "ERR EINVAL checkpoint id required\n"@,
            Reply::SnapshotDirRequired => "ERR EINVAL snapshot dir required\n"@,
            Reply::ForkDirRequired => "ERR EINVAL fork snapshot dir required\n"@,
            Reply::BalloonArgument => "ERR EINVAL balloon target must be MiB\n"@,
            Reply::Paused => "OK paused\n"@,
            Reply::Running => "OK running\n"@,
            Reply::State(s) => "OK "@ + s@ + "\n"@,
            Reply::PagerFailed(e) => "ERR EIO RAM pager failed: "@ + e@ + "\n"@,
            Reply::Balloon { target_pages, actual_pages } => "OK target="@ + decimal_of(
                (target_pages / 256) as nat,
            ) + " actual="@ + decimal_of((actual_pages / 256) as nat) + "\n"@,
            Reply::BalloonTarget(mib) => "OK balloon target "@ + decimal_of(mib as nat)
                + " MiB\n"@,
            Reply::NoDevice(e) => "ERR ENODEV "@ + e@ + "\n"@,
            Reply::Checkpointed { id, bytes } => "OK checkpointed "@ + id@ + " ("@ + decimal_of(
                bytes as nat,
            ) + " bytes, paused)\n"@,
            Reply::CheckpointFailed(e) => "ERR EIO checkpoint failed: "@ + e@ + "\n"@,
            Reply::NoCheckpoint(id) => "ERR ENOENT no checkpoint '"@ + id@ + "'\n"@,
            Reply::Restored(id) => "OK restored "@ + id@ + " (paused)\n"@,
            Reply::RestoreFailed(e) => "ERR EIO restore failed: "@ + e@ + "\n"@,
            Reply::CreateFailed { dir, error } => "ERR EIO create "@ + dir@ + ": "@ + error@
                + "\n"@,
            Reply::Saved { bytes, regions, paused } => "OK saved ("@ + decimal_of(bytes as nat)
                + " bytes, "@ + decimal_of(regions as nat) + (if paused {
                " regions, paused)\n"@
            } else {
                " regions)\n"@
            }),
            Reply::ResumeAfterSaveFailed { error, resume_error } => "ERR EIO "@ + error@
                + "; resume after failed save: "@ + resume_error@ + "\n"@,
            Reply::SavePending => "ERR EBUSY another durable save is still pending\n"@,
            Reply::NotSupported(m) => "ERR ENOTSUP "@ + m@ + "\n"@,
            Reply::CaptureFailed(m) => "ERR EIO capture VM: "@ + m@ + "\n"@,
            Reply::Prepared => "OK prepared (paused)\n"@,
            Reply::NoPreparedSave => "ERR ENOENT no prepared durable save\n"@,
            Reply::StartSaveFailed(e) => "ERR EAGAIN start durable save: "@ + e@ + "\n"@,
            Reply::Canceled => "OK canceled\n"@,
            Reply::NoSaveToCancel => "ERR ENOENT save is finishing or does not exist\n"@,
            Reply::NoMemfd { golden } => if golden {
                "ERR EINVAL no memfd-backed RAM (start the golden VM with SMOLVM_FORKABLE=1)\n"@
            } else {
                "ERR EINVAL no memfd-backed RAM (start the VM with SMOLVM_FORKABLE=1)\n"@
            },
            Reply::ForkFailed { continuing, error } => (if continuing {
                "ERR EIO fork-continue checkpoint failed: "@
            } else {
                "ERR EIO fork checkpoint failed: "@
            }) + error@ + "\n"@,
            Reply::Forked { pid, regions } => "OK forked (frozen base, pid "@ + signed_decimal_of(
                pid as int,
            ) + ", "@ + decimal_of(regions as nat) + " regions)\n"@,
            Reply::ForkedGeneration { guardian, pid, regions, disks } =>
                "OK forked generation (running source, "@ + (if guardian {
                    "guardian pid "@
                } else {
                    "memfd pid "@
                }) + signed_decimal_of(pid as int) + ", "@ + decimal_of(regions as nat)
                    + " regions, "@ + decimal_of(disks as nat) + " disks)\n"@,
            Reply::BlockPivots(e) => "ERR EINVAL read block pivots: "@ + e@ + "\n"@,
            Reply::SourceResumed { what, error } => "ERR EIO write "@ + what.label() + ": "@ + error@
                + "; source already resumed\n"@,
            Reply::RollbackRead { path, error } => "ERR EIO read rollback checkpoint "@ + path@
                + ": "@ + error@ + "\n"@,
            Reply::RollbackDecode(e) => "ERR EINVAL decode rollback checkpoint: "@ + e@ + "\n"@,
            Reply::RollbackFailed(e) => "ERR EIO rollback fork: "@ + e@ + "\n"@,
            Reply::ForkLost { failure, error, recovery } => "ERR EIO "@ + failure@
                + "; rollback failed: "@ + error@ + "; "@ + recovery@ + "\n"@,
            Reply::ForkUncleaned { failure, errors } => "ERR EIO "@ + failure@
                + "; rollback succeeded but cleanup failed: "@ + errors@ + "\n"@,
            Reply::Failed(e) => "ERR EIO "@ + e@ + "\n"@,
        }
    }

    /// The line that is sent.
    pub fn text(&self) -> (r: String)
        ensures
            r@ == self.line(),
    {
        match self {
            Reply::EmptyCommand => "ERR EINVAL empty command\n".to_string(),
            Reply::UnknownCommand => "ERR EINVAL unknown command\n".to_string(),
            Reply::CheckpointIdRequired => "ERR EINVAL checkpoint id required\n".to_string(),
            Reply::SnapshotDirRequired => "ERR EINVAL snapshot dir required\n".to_string(),
            Reply::ForkDirRequired => "ERR EINVAL fork snapshot dir required\n".to_string(),
            Reply::BalloonArgument => "ERR EINVAL balloon target must be MiB\n".to_string(),
            Reply::Paused => "OK paused\n".to_string(),
            Reply::Running => "OK running\n".to_string(),
            Reply::State(s) => join3("OK ", s.as_str(), "\n"),
            Reply::PagerFailed(e) => join3("ERR EIO RAM pager failed: ", e.as_str(), "\n"),
            Reply::Balloon { target_pages, actual_pages } => {
                let mut s = join3(
                    "OK target=",
                    decimal((*target_pages / 256) as u64).as_str(),
                    " actual=",
                );
                s.append(decimal((*actual_pages / 256) as u64).as_str());
                s.append("\n");
                s
            },
            Reply::BalloonTarget(mib) => join3(
                "OK balloon target ",
                decimal(*mib as u64).as_str(),
                " MiB\n",
            ),
            Reply::NoDevice(e) => join3("ERR ENODEV ", e.as_str(), "\n"),
            Reply::Checkpointed { id, bytes } => {
                let mut s = join3("OK checkpointed ", id.as_str(), " (");
                s.append(decimal(*bytes).as_str());
                s.append(" bytes, paused)\n");
                s
            },
            Reply::CheckpointFailed(e) => join3("ERR EIO checkpoint failed: ", e.as_str(), "\n"),
            Reply::NoCheckpoint(id) => join3("ERR ENOENT no checkpoint '", id.as_str(), "'\n"),
            Reply::Restored(id) => join3("OK restored ", id.as_str(), " (paused)\n"),
            Reply::RestoreFailed(e) => join3("ERR EIO restore failed: ", e.as_str(), "\n"),
            Reply::CreateFailed { dir, error } => {
                let mut s = join3("ERR EIO create ", dir.as_str(), ": ");
                s.append(error.as_str());
                s.append("\n");
                s
            },
            Reply::Saved { bytes, regions, paused } => {
                let mut s = join3("OK saved (", decimal(*bytes).as_str(), " bytes, ");
                s.append(decimal(*regions).as_str());
                if *paused {
                    s.append(" regions, paused)\n");
                } else {
                    s.append(" regions)\n");
                }
                s
            },
            Reply::ResumeAfterSaveFailed { error, resume_error } => {
                let mut s = join3("ERR EIO ", error.as_str(), "; resume after failed save: ");
                s.append(resume_error.as_str());
                s.append("\n");
                s
            },
            _ => self.fork_text(),
        }
    }

    /// The lines about deferred saves and forks.
    fn fork_text(&self) -> (r: String)
        requires
            !(self is EmptyCommand),
            !(self is UnknownCommand),
            !(self is CheckpointIdRequired),
            !(self is SnapshotDirRequired),
            !(self is ForkDirRequired),
            !(self is BalloonArgument),
            !(self is Paused),
            !(self is Running),
            !(self is State),
            !(self is PagerFailed),
            !(self is Balloon),
            !(self is BalloonTarget),
            !(self is NoDevice),
            !(self is Checkpointed),
            !(self is CheckpointFailed),
            !(self is NoCheckpoint),
            !(self is Restored),
            !(self is RestoreFailed),
            !(self is CreateFailed),
            !(self is Saved),
            !(self is ResumeAfterSaveFailed),
        ensures
            r@ == self.line(),
    {
        match self {
            Reply::SavePending => "ERR EBUSY another durable save is still pending\n".to_string(),
            Reply::NotSupported(m) => join3("ERR ENOTSUP ", m.as_str(), "\n"),
            Reply::CaptureFailed(m) => join3("ERR EIO capture VM: ", m.as_str(), "\n"),
            Reply::Prepared => "OK prepared (paused)\n".to_string(),
            Reply::NoPreparedSave => "ERR ENOENT no prepared durable save\n".to_string(),
            Reply::StartSaveFailed(e) => join3(
                "ERR EAGAIN start durable save: ",
                e.as_str(),
                "\n",
            ),
            Reply::Canceled => "OK canceled\n".to_string(),
            Reply::NoSaveToCancel =>
                "ERR ENOENT save is finishing or does not exist\n".to_string(),
            Reply::NoMemfd { golden } => if *golden {
                "ERR EINVAL no memfd-backed RAM (start the golden VM with SMOLVM_FORKABLE=1)\n".to_string()
            } else {
                "ERR EINVAL no memfd-backed RAM (start the VM with SMOLVM_FORKABLE=1)\n".to_string()
            },
            Reply::ForkFailed { continuing, error } => if *continuing {
                join3("ERR EIO fork-continue checkpoint failed: ", error.as_str(), "\n")
            } else {
                join3("ERR EIO fork checkpoint failed: ", error.as_str(), "\n")
            },
            Reply::Forked { pid, regions } => {
                let mut s = join3(
                    "OK forked (frozen base, pid ",
                    signed_decimal(*pid).as_str(),
                    ", ",
                );
                s.append(decimal(*regions).as_str());
                s.append(" regions)\n");
                s
            },
            Reply::ForkedGeneration { guardian, pid, regions, disks } => {
                let mut s = "OK forked generation (running source, ".to_string();
                if *guardian {
                    s.append("guardian pid ");
                } else {
                    s.append("memfd pid ");
                }
                s.append(signed_decimal(*pid).as_str());
                s.append(", ");
                s.append(decimal(*regions).as_str());
                s.append(" regions, ");
                s.append(decimal(*disks).as_str());
                s.append(" disks)\n");
                s
            },
            Reply::BlockPivots(e) => join3("ERR EINVAL read block pivots: ", e.as_str(), "\n"),
            Reply::SourceResumed { what, error } => {
                let mut s = join3("ERR EIO write ", what.name().as_str(), ": ");
                s.append(error.as_str());
                s.append("; source already resumed\n");
                s
            },
            Reply::RollbackRead { path, error } => {
                let mut s = join3("ERR EIO read rollback checkpoint ", path.as_str(), ": ");
                s.append(error.as_str());
                s.append("\n");
                s
            },
            Reply::RollbackDecode(e) => join3(
                "ERR EINVAL decode rollback checkpoint: ",
                e.as_str(),
                "\n",
            ),
            Reply::RollbackFailed(e) => join3("ERR EIO rollback fork: ", e.as_str(), "\n"),
            Reply::ForkLost { failure, error, recovery } => {
                let mut s = join3("ERR EIO ", failure.as_str(), "; rollback failed: ");
                s.append(error.as_str());
                s.append("; ");
                s.append(recovery.as_str());
                s.append("\n");
                s
            },
            Reply::ForkUncleaned { failure, errors } => {
                let mut s = join3(
                    "ERR EIO ",
                    failure.as_str(),
                    "; rollback succeeded but cleanup failed: ",
                );
                s.append(errors.as_str());
                s.append("\n");
                s
            },
            Reply::Failed(e) => join3("ERR EIO ", e.as_str(), "\n"),
            _ => String::new(),
        }
    }
}

/// The step performs the operation, on the argument `arg`.
pub open spec fn performs(s: Step, v: Verb, arg: Seq<char>) -> bool {
    match s {
        Step::Perform(op) => match (v, op) {
            (Verb::Pause, Operation::Pause) => true,
            (Verb::Resume, Operation::Resume) => true,
            (Verb::Status, Operation::Status) => true,
            (Verb::Balloon, Operation::BalloonQuery) => arg.len() == 0,
            (Verb::Balloon, Operation::BalloonSet(mib)) => number_of(arg, u32::MAX as nat) == Some(
                mib as nat,
            ),
            (Verb::Checkpoint, Operation::Checkpoint(id)) => id@ == arg,
            (Verb::Restore, Operation::Restore(id)) => id@ == arg,
            (Verb::Save, Operation::Save(dir)) => dir@ == arg,
            (Verb::PrepareSave, Operation::PrepareSave(dir)) => dir@ == arg,
            (Verb::FinishSave, Operation::FinishSave(dir)) => dir@ == arg,
            (Verb::CancelSave, Operation::CancelSave(dir)) => dir@ == arg,
            (Verb::Fork, Operation::Fork(dir)) => dir@ == arg,
            (Verb::ForkContinue, Operation::ForkContinue { dir, paged }) => dir@ == arg && !paged,
            (Verb::ForkContinuePaged, Operation::ForkContinue { dir, paged }) => dir@ == arg
                && paged,
            (Verb::RollbackFork, Operation::RollbackFork(dir)) => dir@ == arg,
            _ => false,
        },
        Step::Answer(_) => false,
    }
}

/// What is wrong with the argument of a verb.
pub open spec fn argument_fault(v: Verb, arg: Seq<char>) -> Option<Reply> {
    match v {
        Verb::Checkpoint | Verb::Restore => if arg.len() == 0 {
            Some(Reply::CheckpointIdRequired)
        } else {
            None
        },
        Verb::Save | Verb::PrepareSave => if arg.len() == 0 {
            Some(Reply::SnapshotDirRequired)
        } else {
            None
        },
        Verb::Fork | Verb::ForkContinue | Verb::ForkContinuePaged | Verb::RollbackFork => if
        arg.len() == 0 {
            Some(Reply::ForkDirRequired)
        } else {
            None
        },
        Verb::Balloon => if arg.len() > 0 && number_of(arg, u32::MAX as nat) is None {
            Some(Reply::BalloonArgument)
        } else {
            None
        },
        _ => None,
    }
}

/// The step is what the line of text asks for.
pub open spec fn steps_to(line: Seq<char>, platform: Platform, s: Step) -> bool {
    match verb_of(verb_word(line)) {
        Some(v) => if platform.provides(v) {
            match argument_fault(v, argument(line)) {
                Some(reply) => s == Step::Answer(reply),
                None => performs(s, v, argument(line)),
            }
        } else {
            s == Step::Answer(Reply::UnknownCommand)
        },
        None => s == Step::Answer(Reply::UnknownCommand),
    }
}

/// What the line of text comes to.
pub fn step_for(line: &str, platform: &Platform) -> (r: Step)
    ensures
        steps_to(line@, *platform, r),
{
    let command = parse_command(line, platform);
    let empty: bool = command.arg.as_str().unicode_len() == 0;
    let arg = command.arg;
    match command.verb {
        None => Step::Answer(Reply::UnknownCommand),
        Some(Verb::Pause) => Step::Perform(Operation::Pause),
        Some(Verb::Resume) => Step::Perform(Operation::Resume),
        Some(Verb::Status) => Step::Perform(Operation::Status),
        Some(Verb::Balloon) => if empty {
            Step::Perform(Operation::BalloonQuery)
        } else {
            match parse_number(arg.as_str(), u32::MAX as u64) {
                Some(mib) => Step::Perform(Operation::BalloonSet(mib as u32)),
                None => Step::Answer(Reply::BalloonArgument),
            }
        },
        Some(Verb::Checkpoint) => if empty {
            Step::Answer(Reply::CheckpointIdRequired)
        } else {
            Step::Perform(Operation::Checkpoint(arg))
        },
        Some(Verb::Restore) => if empty {
            Step::Answer(Reply::CheckpointIdRequired)
        } else {
            Step::Perform(Operation::Restore(arg))
        },
        Some(Verb::Save) => if empty {
            Step::Answer(Reply::SnapshotDirRequired)
        } else {
            Step::Perform(Operation::Save(arg))
        },
        Some(Verb::PrepareSave) => if empty {
            Step::Answer(Reply::SnapshotDirRequired)
        } else {
            Step::Perform(Operation::PrepareSave(arg))
        },
        Some(Verb::FinishSave) => Step::Perform(Operation::FinishSave(arg)),
        Some(Verb::CancelSave) => Step::Perform(Operation::CancelSave(arg)),
        Some(Verb::Fork) => if empty {
            Step::Answer(Reply::ForkDirRequired)
        } else {
            Step::Perform(Operation::Fork(arg))
        },
        Some(Verb::ForkContinue) => if empty {
            Step::Answer(Reply::ForkDirRequired)
        } else {
            Step::Perform(Operation::ForkContinue { dir: arg, paged: false })
        },
        Some(Verb::ForkContinuePaged) => if empty {
            Step::Answer(Reply::ForkDirRequired)
        } else {
            Step::Perform(Operation::ForkContinue { dir: arg, paged: true })
        },
        Some(Verb::RollbackFork) => if empty {
            Step::Answer(Reply::ForkDirRequired)
        } else {
            Step::Perform(Operation::RollbackFork(arg))
        },
    }
}

/// What a command comes to, by the bytes that were read for it.
pub fn first_step(command: &[u8], platform: &Platform) -> (r: Step)
    ensures
        if command@.len() == 0 {
            r == Step::Answer(Reply::EmptyCommand)
        } else {
            steps_to(lossy_text(command@), *platform, r)
        },
        command@.len() > 0 && vstd::utf8::valid_utf8(command@) ==> steps_to(
            vstd::utf8::decode_utf8(command@),
            *platform,
            r,
        ),
{
    if command.len() == 0 {
        return Step::Answer(Reply::EmptyCommand);
    }
    let line = lossy(command);
    step_for(line.as_str(), platform)
}

// ---------------------------------------------------------------------------
// Outcomes.
// ---------------------------------------------------------------------------

/// The needle occurs in the text.
pub open spec fn occurs(hay: Seq<char>, needle: Seq<char>) -> bool {
    exists|i: int|
        0 <= i && i + needle.len() <= hay.len() && #[trigger] hay.subrange(i, i + needle.len())
            == needle
}

fn contains(hay: &str, needle: &str) -> (r: bool)
    ensures
        r == occurs(hay@, needle@),
{
    let n: usize = hay.unicode_len();
    let m: usize = needle.unicode_len();
    if m > n {
        return false;
    }
    let mut i: usize = 0;
    while i <= n - m
        invariant
            m <= n,
            n == hay@.len(),
            m == needle@.len(),
            i <= n - m + 1,
            forall|k: int|
                0 <= k < i ==> #[trigger] hay@.subrange(k, k + needle@.len()) != needle@,
        decreases n - i,
    {
        if crate::text::same(hay.substring_char(i, i + m), needle) {
            assert(hay@.subrange(i as int, i + needle@.len()) == needle@);
            return true;
        }
        if i == n - m {
            return false;
        }
        i += 1;
    }
    false
}

/// The reply to a capture for a deferred save that failed: where the platform
/// cannot defer, it says so.
pub fn capture_failed(message: String) -> (r: Reply)
    ensures
        r == (if occurs(message@, "deferred durable save requires"@) {
            Reply::NotSupported(message)
        } else {
            Reply::CaptureFailed(message)
        }),
{
    if contains(message.as_str(), "deferred durable save requires") {
        Reply::NotSupported(message)
    } else {
        Reply::CaptureFailed(message)
    }
}

/// The reply to a save that failed, after the VM was resumed.
pub fn save_failed(error: String, resume_error: Option<String>) -> (r: Reply)
    ensures
        r == (match resume_error {
            Some(resume_error) => Reply::ResumeAfterSaveFailed { error, resume_error },
            None => Reply::Failed(error),
        }),
{
    match resume_error {
        Some(resume_error) => Reply::ResumeAfterSaveFailed { error, resume_error },
        None => Reply::Failed(error),
    }
}

/// The texts with ", " between them.
pub open spec fn listed(s: Seq<String>) -> Seq<char>
    decreases s.len(),
{
    if s.len() == 0 {
        Seq::empty()
    } else if s.len() == 1 {
        s[0]@
    } else {
        listed(s.drop_last()) + ", "@ + s.last()@
    }
}

fn list(s: &Vec<String>) -> (r: String)
    ensures
        r@ == listed(s@),
{
    let mut out = String::new();
    let mut i: usize = 0;
    while i < s.len()
        invariant
            i <= s@.len(),
            out@ == listed(s@.subrange(0, i as int)),
        decreases s@.len() - i,
    {
        let ghost front = s@.subrange(0, i as int);
        let ghost next = s@.subrange(0, i + 1);
        assert(next.drop_last() =~= front);
        if i > 0 {
            out.append(", ");
        }
        out.append(s[i].as_str());
        assert(out@ =~= listed(next));
        i += 1;
    }
    assert(s@.subrange(0, i as int) =~= s@);
    out
}

/// The reply to a fork that failed and was rolled back. `cleanup_errors` are
/// of the files that could not be removed.
pub fn fork_rolled_back(failure: String, cleanup_errors: Vec<String>) -> (r: Reply)
    ensures
        if cleanup_errors@.len() == 0 {
            r == Reply::Failed(failure)
        } else {
            r matches Reply::ForkUncleaned { failure: f, errors } && f == failure && errors@
                == listed(cleanup_errors@)
        },
{
    if cleanup_errors.len() == 0 {
        Reply::Failed(failure)
    } else {
        let errors = list(&cleanup_errors);
        Reply::ForkUncleaned { failure, errors }
    }
}

/// Every reply is one line.
pub proof fn replies_end_their_line(r: Reply)
    ensures
        r.line().len() > 0,
        r.line().last() == '\n',
{
    reveal_strlit("\n");
    reveal_strlit("'\n");
    reveal_strlit(" MiB\n");
    reveal_strlit(" bytes, paused)\n");
    reveal_strlit(" (paused)\n");
    reveal_strlit(" regions, paused)\n");
    reveal_strlit(" regions)\n");
    reveal_strlit(" disks)\n");
    reveal_strlit("; source already resumed\n");
    reveal_strlit("ERR EINVAL empty command\n");
    reveal_strlit("ERR EINVAL unknown command\n");
    reveal_strlit("ERR EINVAL checkpoint id required\n");
    reveal_strlit("ERR EINVAL snapshot dir required\n");
    reveal_strlit("ERR EINVAL fork snapshot dir required\n");
    reveal_strlit("ERR EINVAL balloon target must be MiB\n");
    reveal_strlit("OK paused\n");
    reveal_strlit("OK running\n");
    reveal_strlit("ERR EBUSY another durable save is still pending\n");
    reveal_strlit("OK prepared (paused)\n");
    reveal_strlit("ERR ENOENT no prepared durable save\n");
    reveal_strlit("OK canceled\n");
    reveal_strlit("ERR ENOENT save is finishing or does not exist\n");
    reveal_strlit(
        "ERR EINVAL no memfd-backed RAM (start the golden VM with SMOLVM_FORKABLE=1)\n",
    );
    reveal_strlit("ERR EINVAL no memfd-backed RAM (start the VM with SMOLVM_FORKABLE=1)\n");
}

} // verus!
