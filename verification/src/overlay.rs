//! Virtual files and directories that are shown over a shared directory.

use vstd::prelude::*;
use vstd::string::{StrSliceExecFns, StringExecFns};

use crate::errno::Errno;
use crate::snapshot::{find_code, position};
use crate::text::same;

verus! {

/// What a virtual entry holds.
#[derive(Debug)]
pub enum VirtualEntryContent {
    File { data: Vec<u8> },
    Dir { children: Vec<VirtualDirEntry> },
}

#[derive(Debug)]
pub struct VirtualEntry {
    pub mode: u32,
    /// The entry is gone once it has been opened.
    pub one_shot: bool,
    pub content: VirtualEntryContent,
}

/// A virtual entry under its name.
#[derive(Debug)]
pub struct VirtualDirEntry {
    pub name: String,
    pub entry: VirtualEntry,
}

/// A named entry, as a value.
pub struct Entry {
    pub name: Seq<char>,
    pub mode: u32,
    pub one_shot: bool,
    pub content: Content,
}

pub enum Content {
    File(Seq<u8>),
    Dir(Seq<Entry>),
}

pub open spec fn entry_of(name: Seq<char>, e: VirtualEntry) -> Entry
    decreases e, 0nat,
{
    Entry {
        name,
        mode: e.mode,
        one_shot: e.one_shot,
        content: match e.content {
            VirtualEntryContent::File { data } => Content::File(data@),
            VirtualEntryContent::Dir { children } => Content::Dir(entries_of(children@)),
        },
    }
}

pub open spec fn entries_of(s: Seq<VirtualDirEntry>) -> Seq<Entry>
    decreases s, 1nat,
{
    if s.len() == 0 {
        Seq::empty()
    } else {
        entries_of(s.drop_last()).push(entry_of(s.last().name@, s.last().entry))
    }
}


pub proof fn lemma_entries(s: Seq<VirtualDirEntry>)
    ensures
        entries_of(s).len() == s.len(),
        forall|i: int|
            0 <= i < s.len() ==> #[trigger] entries_of(s)[i] == entry_of(s[i].name@, s[i].entry),
    decreases s.len(),
{
    if s.len() > 0 {
        lemma_entries(s.drop_last());
    }
}

/// The path without one slash in front.
pub open spec fn relative(path: Seq<char>) -> Seq<char> {
    if path.len() > 0 && path[0] as u32 == 0x2f {
        path.skip(1)
    } else {
        path
    }
}

/// A path that ends without a name.
pub open spec fn nameless(path: Seq<char>) -> bool {
    path.len() == 0 || path.last() as u32 == 0x2f
}

/// The first entry with the name, from `at` on, or the end.
pub open spec fn find_entry(entries: Seq<Entry>, name: Seq<char>, at: int) -> int
    decreases entries.len() - at,
{
    if at >= entries.len() || entries[at].name == name {
        at
    } else {
        find_entry(entries, name, at + 1)
    }
}

/// The entries with one more, below the directories that the path names.
pub open spec fn added_at(entries: Seq<Entry>, path: Seq<char>, new: Entry) -> Result<
    Seq<Entry>,
    Errno,
>
    decreases path.len(),
{
    let e = find_code(path, 0x2f, 0);
    if 0 <= e < path.len() {
        let i = find_entry(entries, path.subrange(0, e), 0);
        if i >= entries.len() {
            Err(Errno::NoEnt)
        } else {
            match entries[i].content {
                Content::File(_) => Err(Errno::NotDir),
                Content::Dir(children) => match added_at(children, path.skip(e + 1), new) {
                    Err(error) => Err(error),
                    Ok(grown) => Ok(
                        entries.update(i, (Entry { content: Content::Dir(grown), ..entries[i] })),
                    ),
                },
            }
        }
    } else if find_code(path, 0, 0) < path.len() {
        Err(Errno::Inval)
    } else {
        Ok(entries.push(Entry { name: path, ..new }))
    }
}

/// The entries with a new one at the path. Every directory on the way must be
/// there; the last part of the path is the new name.
pub open spec fn overlaid(entries: Seq<Entry>, path: Seq<char>, new: Entry) -> Result<
    Seq<Entry>,
    Errno,
> {
    if nameless(relative(path)) {
        Err(Errno::Inval)
    } else {
        added_at(entries, relative(path), new)
    }
}

fn insert_at(entries: &mut Vec<VirtualDirEntry>, path: &str, new: VirtualEntry) -> (r: Result<
    (),
    Errno,
>)
    ensures
        match added_at(entries_of(old(entries)@), path@, entry_of(Seq::empty(), new)) {
            Ok(grown) => r is Ok && entries_of(final(entries)@) == grown,
            Err(error) => r == Err::<(), Errno>(error) && entries_of(final(entries)@)
                == entries_of(old(entries)@),
        },
    decreases path@.len(),
{
    let n: usize = path.unicode_len();
    let e: usize = position(path, 0x2f, 0, n);
    proof {
        lemma_entries(entries@);
    }
    if e < n {
        let name = path.substring_char(0, e);
        let rest = path.substring_char(e + 1, n);
        assert(rest@ =~= path@.skip(e + 1));
        let ghost before = entries_of(entries@);
        let mut i: usize = 0;
        while i < entries.len() && !same(entries[i].name.as_str(), name)
            invariant
                i <= entries@.len(),
                before == entries_of(entries@),
                find_entry(before, name@, 0) == find_entry(before, name@, i as int),
            decreases entries@.len() - i,
        {
            proof {
                lemma_entries(entries@);
            }
            i += 1;
        }
        if i == entries.len() {
            return Err(Errno::NoEnt);
        }
        assert(find_entry(before, name@, 0) == i);
        let ghost whole = entries@;
        let r = match &mut entries[i].entry.content {
            VirtualEntryContent::File { .. } => Err(Errno::NotDir),
            VirtualEntryContent::Dir { children } => insert_at(children, rest, new),
        };
        proof {
            lemma_entries(entries@);
            lemma_entries(whole);
            match before[i as int].content {
                Content::File(_) => {
                    assert(entries_of(entries@) =~= before);
                },
                Content::Dir(children) => match added_at(children, rest@, entry_of(Seq::empty(), new)) {
                    Err(_) => {
                        assert(entries_of(entries@) =~= before);
                    },
                    Ok(grown) => {
                        assert(entries_of(entries@) =~= before.update(
                            i as int,
                            (Entry { content: Content::Dir(grown), ..before[i as int] }),
                        ));
                    },
                },
            }
        }
        r
    } else if position(path, 0, 0, n) < n {
        Err(Errno::Inval)
    } else {
        entries.push(VirtualDirEntry { name: String::from_str(path), entry: new });
        assert(entries@.drop_last() =~= old(entries)@);
        Ok(())
    }
}

/// Add an entry at the path, which may begin with a slash.
pub fn add_overlay_entry(entries: &mut Vec<VirtualDirEntry>, path: &str, new: VirtualEntry) -> (r:
    Result<(), Errno>)
    ensures
        match overlaid(entries_of(old(entries)@), path@, entry_of(Seq::empty(), new)) {
            Ok(grown) => r is Ok && entries_of(final(entries)@) == grown,
            Err(error) => r == Err::<(), Errno>(error) && entries_of(final(entries)@)
                == entries_of(old(entries)@),
        },
{
    let n: usize = path.unicode_len();
    let from: usize = if n > 0 && path.get_char(0) as u32 == 0x2f {
        1
    } else {
        0
    };
    let inner = path.substring_char(from, n);
    assert(inner@ =~= relative(path@));
    if from == n || path.get_char(n - 1) as u32 == 0x2f {
        return Err(Errno::Inval);
    }
    insert_at(entries, inner, new)
}

/// A directory that has just been added takes entries, where no earlier entry
/// has its name.
pub proof fn a_new_directory_takes_entries(
    entries: Seq<Entry>,
    dir: Seq<char>,
    made: Entry,
    leaf: Seq<char>,
    new: Entry,
)
    requires
        dir.len() > 0,
        leaf.len() > 0,
        forall|i: int| 0 <= i < dir.len() ==> #[trigger] dir[i] as u32 != 0x2f && dir[i] as u32 != 0,
        forall|i: int|
            0 <= i < leaf.len() ==> #[trigger] leaf[i] as u32 != 0x2f && leaf[i] as u32 != 0,
        forall|i: int| 0 <= i < entries.len() ==> #[trigger] entries[i].name != dir,
        made.content == Content::Dir(Seq::empty()),
    ensures
        overlaid(entries, dir, made) matches Ok(grown) && grown == entries.push(
            (Entry { name: dir, ..made }),
        ) && overlaid(grown, dir + seq!['/'] + leaf, new) == Ok::<Seq<Entry>, Errno>(
            entries.push(
                (Entry {
                    name: dir,
                    content: Content::Dir(seq![(Entry { name: leaf, ..new })]),
                    ..made
                }),
            ),
        ),
{
    let path = dir + seq!['/'] + leaf;
    lemma_no_code(dir, 0x2f, 0);
    lemma_no_code(dir, 0, 0);
    lemma_no_code(leaf, 0x2f, 0);
    lemma_no_code(leaf, 0, 0);
    lemma_first_code(path, 0x2f, 0, dir.len() as int);
    let e = Entry { name: dir, ..made };
    let inner = Entry { name: leaf, ..new };
    let grown = entries.push(e);
    lemma_first_entry(grown, dir, 0);
    assert(path.subrange(0, dir.len() as int) =~= dir);
    assert(path.skip(dir.len() as int + 1) =~= leaf);
    assert(Seq::<Entry>::empty().push(inner) =~= seq![inner]);
    assert(added_at(Seq::<Entry>::empty(), leaf, new) == Ok::<Seq<Entry>, Errno>(seq![inner]));
    assert(grown.update(entries.len() as int, (Entry { content: Content::Dir(seq![inner]), ..e }))
        =~= entries.push((Entry { content: Content::Dir(seq![inner]), ..e })));
}

proof fn lemma_no_code(s: Seq<char>, code: u32, at: int)
    requires
        0 <= at <= s.len(),
        forall|i: int| 0 <= i < s.len() ==> #[trigger] s[i] as u32 != code,
    ensures
        find_code(s, code, at) == s.len(),
    decreases s.len() - at,
{
    if at < s.len() {
        lemma_no_code(s, code, at + 1);
    }
}

proof fn lemma_first_code(s: Seq<char>, code: u32, at: int, e: int)
    requires
        0 <= at <= e < s.len(),
        s[e] as u32 == code,
        forall|i: int| 0 <= i < e ==> #[trigger] s[i] as u32 != code,
    ensures
        find_code(s, code, at) == e,
    decreases e - at,
{
    if at < e {
        lemma_first_code(s, code, at + 1, e);
    }
}

proof fn lemma_first_entry(s: Seq<Entry>, name: Seq<char>, at: int)
    requires
        0 <= at < s.len(),
        s.last().name == name,
        forall|i: int| 0 <= i < s.len() - 1 ==> #[trigger] s[i].name != name,
    ensures
        find_entry(s, name, at) == s.len() - 1,
    decreases s.len() - at,
{
    if at < s.len() - 1 {
        lemma_first_entry(s, name, at + 1);
    }
}

} // verus!
