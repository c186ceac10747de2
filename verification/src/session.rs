use vstd::prelude::*;
use vstd::string::StringExecFns;
use crate::error::CustomError;
use crate::strings::{lemma_lex_le_antisymmetric, lemma_lex_lt_proper_prefix, leading_component};
use crate::utils::{
    get_download_target_path, models_sorted, target_path, EntryModel, FtpDirEntry,
};

verus! {

// The compute half of a session's batch operations.  The transfers, probes
// and deletions themselves are network and file I/O that the caller
// performs; everything decided about them — which local path a file goes
// to, whether a file must be fetched at all, what a batch as a whole
// reports, and in which order a batch is deleted — is decided here.

/// How many characters of `s` come before its first `/` (all of `s` if it
/// has none).
pub open spec fn component_len(s: Seq<char>) -> int
    decreases s.len(),
{
    if s.len() == 0 {
        0
    } else if s.first() == '/' {
        0
    } else {
        1 + component_len(s.drop_first())
    }
}

/// `component_len` is pinned by its characterisation: everything before it
/// is no slash, and it stops at the end or at a slash.
pub proof fn lemma_component_len_characterisation(s: Seq<char>, i: int)
    requires
        0 <= i <= s.len(),
        forall|j: int| 0 <= j < i ==> s[j] != '/',
        i == s.len() || s[i] == '/',
    ensures
        component_len(s) == i,
    decreases s.len(),
{
    if i == 0 {
        assert(s.len() == 0 || s[0] == '/');
    } else {
        assert(s[0] != '/');
        let t = s.drop_first();
        assert forall|j: int| 0 <= j < i - 1 implies t[j] != '/' by {
            assert(t[j] == s[j + 1]);
        }
        assert(i - 1 == t.len() || t[i - 1] == s[i]);
        lemma_component_len_characterisation(t, i - 1);
    }
}

/// The remote root of a batch file: the first component of its path,
/// separator included.
pub open spec fn batch_root_of(path: Seq<char>) -> Seq<char> {
    path.take(component_len(path)) + seq!['/']
}

/// The local target of a batch file: its remote root substituted with the
/// destination folder.
pub open spec fn batch_target(path: Seq<char>, dest: Seq<char>) -> Seq<char> {
    target_path(path, dest, batch_root_of(path))
}

/// Computes the local target path of one batch file.
pub fn file_target_path(path: &str, dest: &str) -> (r: String)
    ensures
        r@ == batch_target(path@, dest@),
{
    let mut root = leading_component(path);
    proof {
        lemma_component_len_characterisation(path@, root@.len() as int);
    }
    root.append("/");
    proof {
        reveal_strlit("/");
        assert("/"@ =~= seq!['/']);
        assert(root@ == batch_root_of(path@));
    }
    get_download_target_path(path, dest, root.as_str())
}

/// Whether one batch file must be fetched: it is skipped only when a local
/// file of exactly the recorded remote size already stands at its target.
pub fn fetch_decision(local_size: Option<u64>, remote_size: usize) -> (r: bool)
    ensures
        r == (local_size != Some(remote_size as u64)),
{
    match local_size {
        Some(n) => n != remote_size as u64,
        None => true,
    }
}

/// What a whole batch download reports: the full input list when every
/// fetch attempted succeeded, a protocol error as soon as any fetch failed
/// — the batch is then not complete, whatever single files arrived.
pub fn batch_outcome(files: Vec<FtpDirEntry>, any_failed: bool) -> (r: Result<
    Vec<FtpDirEntry>,
    CustomError,
>)
    ensures
        match r {
            Ok(v) => !any_failed && v@ == files@,
            Err(e) => any_failed && e is Ftp,
        },
{
    if any_failed {
        Err(CustomError::Ftp(String::from_str("failed to download some files")))
    } else {
        Ok(files)
    }
}

/// A local state of the mirror: the byte size of each file present, by its
/// local path.
pub open spec fn needs_fetch(e: EntryModel, dest: Seq<char>, local: Map<Seq<char>, nat>) -> bool {
    &&& !(e is Folder)
    &&& !(local.contains_key(batch_target(e.path(), dest)) && local[batch_target(e.path(), dest)]
        == e.size_of())
}

/// The local state after a successful batch download: every file of the
/// batch stands at its target with its remote size.
pub open spec fn after_batch(
    files: Seq<EntryModel>,
    dest: Seq<char>,
    local: Map<Seq<char>, nat>,
) -> Map<Seq<char>, nat>
    decreases files.len(),
{
    if files.len() == 0 {
        local
    } else if files.first() is Folder {
        after_batch(files.drop_first(), dest, local)
    } else {
        after_batch(
            files.drop_first(),
            dest,
            local.insert(batch_target(files.first().path(), dest), files.first().size_of()),
        )
    }
}

/// Whether the files of a batch land on pairwise distinct local targets.
pub open spec fn distinct_targets(files: Seq<EntryModel>, dest: Seq<char>) -> bool {
    forall|i: int, j: int|
        0 <= i < j < files.len() && !((#[trigger] files[i]) is Folder) && !((#[trigger] files[j])
            is Folder) ==> batch_target(files[i].path(), dest) != batch_target(
            files[j].path(),
            dest,
        )
}

/// A batch download touches no local path outside its own targets.
proof fn lemma_after_batch_preserves(
    files: Seq<EntryModel>,
    dest: Seq<char>,
    local: Map<Seq<char>, nat>,
    k: Seq<char>,
)
    requires
        forall|i: int|
            0 <= i < files.len() && !((#[trigger] files[i]) is Folder) ==> batch_target(
                files[i].path(),
                dest,
            ) != k,
    ensures
        after_batch(files, dest, local).contains_key(k) <==> local.contains_key(k),
        local.contains_key(k) ==> after_batch(files, dest, local)[k] == local[k],
    decreases files.len(),
{
    if files.len() > 0 {
        let rest = files.drop_first();
        assert forall|i: int|
            0 <= i < rest.len() && !((#[trigger] rest[i]) is Folder) implies batch_target(
            rest[i].path(),
            dest,
        ) != k by {
            assert(rest[i] == files[i + 1]);
        }
        if files.first() is Folder {
            lemma_after_batch_preserves(rest, dest, local, k);
        } else {
            assert(batch_target(files[0].path(), dest) != k);
            let l2 = local.insert(batch_target(files.first().path(), dest), files.first().size_of());
            lemma_after_batch_preserves(rest, dest, l2, k);
        }
    }
}

/// A batch download is idempotent: after a successful run against a
/// destination, no file of the same batch needs a fetch any more — a second
/// run performs zero transfers, every file skips by size match.
pub proof fn lemma_batch_download_idempotent(
    files: Seq<EntryModel>,
    dest: Seq<char>,
    local: Map<Seq<char>, nat>,
)
    requires
        distinct_targets(files, dest),
    ensures
        forall|i: int|
            0 <= i < files.len() ==> !needs_fetch(
                #[trigger] files[i],
                dest,
                after_batch(files, dest, local),
            ),
    decreases files.len(),
{
    if files.len() > 0 {
        let rest = files.drop_first();
        assert forall|i: int, j: int|
            0 <= i < j < rest.len() && !((#[trigger] rest[i]) is Folder) && !((#[trigger] rest[j])
                is Folder) implies batch_target(rest[i].path(), dest) != batch_target(
            rest[j].path(),
            dest,
        ) by {
            assert(rest[i] == files[i + 1]);
            assert(rest[j] == files[j + 1]);
        }
        if files.first() is Folder {
            lemma_batch_download_idempotent(rest, dest, local);
            assert forall|i: int| 0 <= i < files.len() implies !needs_fetch(
                #[trigger] files[i],
                dest,
                after_batch(files, dest, local),
            ) by {
                if i > 0 {
                    assert(files[i] == rest[i - 1]);
                }
            }
        } else {
            let t0 = batch_target(files[0].path(), dest);
            let l2 = local.insert(t0, files[0].size_of());
            lemma_batch_download_idempotent(rest, dest, l2);
            assert forall|i: int|
                0 <= i < rest.len() && !((#[trigger] rest[i]) is Folder) implies batch_target(
                rest[i].path(),
                dest,
            ) != t0 by {
                assert(rest[i] == files[i + 1]);
            }
            lemma_after_batch_preserves(rest, dest, l2, t0);
            assert forall|i: int| 0 <= i < files.len() implies !needs_fetch(
                #[trigger] files[i],
                dest,
                after_batch(files, dest, local),
            ) by {
                if i == 0 {
                    assert(after_batch(files, dest, local) == after_batch(rest, dest, l2));
                    assert(l2.contains_key(t0) && l2[t0] == files[0].size_of());
                } else {
                    assert(files[i] == rest[i - 1]);
                }
            }
        }
    }
}

/// Reduces a remote size probe to one value: the byte length of a file,
/// `-1` for a folder, nothing when the probe itself failed.  A length
/// beyond `isize` wraps as a plain cast does.
pub fn size_probe_value(outcome: Option<Option<usize>>) -> (r: Option<isize>)
    ensures
        r == match outcome {
            Some(Some(size)) => Some(size as isize),
            Some(None) => Some(-1isize),
            None => None::<isize>,
        },
{
    match outcome {
        Some(Some(size)) => Some(#[verifier::truncate] (size as isize)),
        Some(None) => Some(-1),
        None => None,
    }
}

/// The order a batch is deleted in: the reverse of the list supplied.
pub fn deletion_order(entries: &Vec<FtpDirEntry>) -> (r: Vec<FtpDirEntry>)
    ensures
        r@ == entries@.reverse(),
{
    let n = entries.len();
    let mut r: Vec<FtpDirEntry> = Vec::new();
    let mut i: usize = 0;
    while i < n
        invariant
            0 <= i <= n,
            n == entries@.len(),
            r@.len() == i,
            forall|k: int| 0 <= k < i ==> r@[k] == entries@[n - 1 - k],
        decreases n - i,
    {
        let e = entries[n - 1 - i].clone();
        r.push(e);
        i = i + 1;
    }
    proof {
        assert(r@ =~= entries@.reverse());
    }
    r
}

/// Whether `child` is a strict descendant path of `anc`: it extends `anc`
/// past a separator.
pub open spec fn is_strict_descendant(child: Seq<char>, anc: Seq<char>) -> bool {
    &&& child.len() > anc.len()
    &&& child.take(anc.len() as int) == anc
    &&& child[anc.len() as int] == '/'
}

/// In a folder list sorted ascending by path, every strict descendant of a
/// folder stands after that folder.
pub proof fn lemma_sorted_descendants_after(s: Seq<EntryModel>, i: int, j: int)
    requires
        models_sorted(s),
        0 <= i < s.len(),
        0 <= j < s.len(),
        is_strict_descendant(s[j].path(), s[i].path()),
    ensures
        i < j,
{
    let anc = s[i].path();
    let child = s[j].path();
    assert(anc.is_prefix_of(child)) by {
        assert(anc =~= child.subrange(0, anc.len() as int));
    }
    lemma_lex_lt_proper_prefix(anc, child);
    if j < i {
        lemma_lex_le_antisymmetric(anc, child);
    } else if j == i {
        assert(child.len() > anc.len());
    }
}

/// Deleting a sorted folder list in reverse removes every strict descendant
/// before its ancestor, so no folder is removed while a folder under it
/// remains.
pub proof fn lemma_reverse_deletion_deepest_first(s: Seq<EntryModel>, a: int, b: int)
    requires
        models_sorted(s),
        0 <= a < s.len(),
        0 <= b < s.len(),
        is_strict_descendant(s.reverse()[a].path(), s.reverse()[b].path()),
    ensures
        a < b,
{
    assert(s.reverse()[a] == s[s.len() - 1 - a]);
    assert(s.reverse()[b] == s[s.len() - 1 - b]);
    lemma_sorted_descendants_after(s, s.len() - 1 - b, s.len() - 1 - a);
}

} // verus!
