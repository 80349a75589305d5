use vstd::prelude::*;

use crate::files::{SourceFile, Timestamp};
use crate::paths::{chars_of, is_path_prefix, join, string_of};

verus! {

/// What a metadata query reports of a path.
#[derive(Clone, Copy, Debug)]
pub struct EntryMeta {
    pub is_file: bool,
    pub is_dir: bool,
    pub len: u64,
    pub modified: Option<Timestamp>,
}

/// A directory still to be listed.
#[derive(Clone, Debug)]
pub struct PendingDir {
    pub path: String,
    /// Whether this is the source root itself.
    pub is_root: bool,
}

/// The state of a scan of a source tree: the regular files found so far and the
/// directories still to list. The listing itself is done by the caller, which hands each
/// entry back through `add_entry`.
pub struct Scanner {
    pub root: String,
    pub files: Vec<SourceFile>,
    pub pending: Vec<PendingDir>,
}

impl PendingDir {
    /// Whether failing to list this directory ends the whole run: only the source root's
    /// failure does; any other directory is skipped.
    pub fn aborts_on_unreadable(&self) -> (r: bool)
        ensures
            r == self.is_root,
    {
        self.is_root
    }
}

proof fn lemma_join_keeps_prefix(root: Seq<char>, dir: Seq<char>, name: Seq<char>)
    requires
        is_path_prefix(root, dir),
    ensures
        is_path_prefix(root, join(dir, name)),
{
    let j = join(dir, name);
    assert(j.take(dir.len() as int) =~= dir);
    assert(j.take(root.len() as int) =~= dir.take(root.len() as int));
    if root.len() < dir.len() {
        assert(j[root.len() as int] == dir[root.len() as int]);
    }
}

impl Scanner {
    /// Every file found and every directory still to list lies under the root.
    pub open spec fn wf(&self) -> bool {
        &&& forall|i: int|
            0 <= i < self.files.len() ==> is_path_prefix(
                self.root@,
                #[trigger] self.files@[i].file_path@,
            )
        &&& forall|i: int|
            0 <= i < self.pending.len() ==> is_path_prefix(
                self.root@,
                #[trigger] self.pending@[i].path@,
            )
    }

    /// Starts a scan of `source`, whose own metadata is `meta`: a directory is queued
    /// for listing; anything else is the one file of the run.
    pub fn start(source: String, meta: EntryMeta) -> (r: Scanner)
        ensures
            r.wf(),
            r.root@ == source@,
            meta.is_dir ==> r.files@.len() == 0 && r.pending@.len() == 1 && r.pending@[0].path@
                == source@ && r.pending@[0].is_root,
            !meta.is_dir ==> r.pending@.len() == 0 && r.files@.len() == 1 && r.files@[0].file_path@
                == source@ && r.files@[0].size == meta.len && r.files@[0].modified
                == meta.modified,
    {
        let root = source.clone();
        assert(root@.take(root@.len() as int) =~= root@);
        let mut files: Vec<SourceFile> = Vec::new();
        let mut pending: Vec<PendingDir> = Vec::new();
        if meta.is_dir {
            pending.push(PendingDir { path: source, is_root: true });
        } else {
            files.push(SourceFile { file_path: source, size: meta.len, modified: meta.modified });
        }
        Scanner { root, files, pending }
    }

    /// The next directory to list, or `None` once the scan is done.
    pub fn next_dir(&mut self) -> (r: Option<PendingDir>)
        requires
            old(self).wf(),
        ensures
            final(self).wf(),
            final(self).root == old(self).root,
            final(self).files@ == old(self).files@,
            old(self).pending@.len() == 0 ==> r is None,
            old(self).pending@.len() == 0 ==> final(self).pending@ == old(self).pending@,
            old(self).pending@.len() > 0 ==> r == Some(old(self).pending@.last()),
            old(self).pending@.len() > 0 ==> final(self).pending@ == old(self).pending@.drop_last(),
            r is Some ==> is_path_prefix(old(self).root@, r->0.path@),
    {
        self.pending.pop()
    }

    /// Takes the entry `name` of the directory `dir`, with its metadata if the query
    /// succeeded. An entry whose metadata could not be read is skipped; a regular file is
    /// recorded with its size and modification time; a directory is queued for listing;
    /// anything else is skipped.
    pub fn add_entry(&mut self, dir: &PendingDir, name: &String, meta: Option<EntryMeta>)
        requires
            old(self).wf(),
            is_path_prefix(old(self).root@, dir.path@),
        ensures
            final(self).wf(),
            final(self).root == old(self).root,
            ({
                let path = join(dir.path@, name@);
                match meta {
                    Some(m) => if m.is_file {
                        &&& final(self).pending@ == old(self).pending@
                        &&& final(self).files@.len() == old(self).files@.len() + 1
                        &&& final(self).files@.drop_last() == old(self).files@
                        &&& final(self).files@.last().file_path@ == path
                        &&& final(self).files@.last().size == m.len
                        &&& final(self).files@.last().modified == m.modified
                    } else if m.is_dir {
                        &&& final(self).files@ == old(self).files@
                        &&& final(self).pending@.len() == old(self).pending@.len() + 1
                        &&& final(self).pending@.drop_last() == old(self).pending@
                        &&& final(self).pending@.last().path@ == path
                        &&& !final(self).pending@.last().is_root
                    } else {
                        &&& final(self).files@ == old(self).files@
                        &&& final(self).pending@ == old(self).pending@
                    },
                    None => {
                        &&& final(self).files@ == old(self).files@
                        &&& final(self).pending@ == old(self).pending@
                    },
                }
            }),
    {
        if let Some(m) = meta {
            if m.is_file || m.is_dir {
                let path = string_of(&join_path(&dir.path, name));
                proof {
                    lemma_join_keeps_prefix(self.root@, dir.path@, name@);
                }
                if m.is_file {
                    self.files.push(SourceFile { file_path: path, size: m.len, modified: m.modified });
                    assert(self.files@.drop_last() =~= old(self).files@);
                } else {
                    self.pending.push(PendingDir { path, is_root: false });
                    assert(self.pending@.drop_last() =~= old(self).pending@);
                }
            }
        }
    }

    /// The files found, once the scan is done.
    pub fn into_files(self) -> (r: Vec<SourceFile>)
        requires
            self.wf(),
        ensures
            r@ == self.files@,
            forall|i: int| 0 <= i < r.len() ==> is_path_prefix(self.root@, #[trigger] r@[i].file_path@),
    {
        self.files
    }
}

/// `dir` joined with `name`.
fn join_path(dir: &String, name: &String) -> (r: Vec<char>)
    ensures
        r@ == join(dir@, name@),
{
    let mut out = chars_of(dir.as_str());
    let part = chars_of(name.as_str());
    if out.len() > 0 && out[out.len() - 1] != '/' {
        out.push('/');
    }
    let mut i: usize = 0;
    while i < part.len()
        invariant
            i <= part.len(),
            out@ == (if dir@.len() == 0 || dir@.last() == '/' {
                dir@
            } else {
                dir@ + seq!['/']
            }) + part@.take(i as int),
        decreases part.len() - i,
    {
        out.push(part[i]);
        i = i + 1;
        assert(part@.take(i as int) =~= part@.take(i - 1) + seq![part@[i - 1]]);
    }
    assert(part@.take(i as int) =~= part@);
    out
}

} // verus!
