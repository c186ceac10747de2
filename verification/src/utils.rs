use vstd::prelude::*;
use vstd::string::{StrSliceExecFns, StringExecFns};
use crate::strings::{lex_le, lemma_lex_le_total, lemma_lex_le_transitive, str_le, str_is_prefix};

verus! {

/// One entry of a remote directory listing, carrying its full remote path;
/// a file entry also carries the size in bytes that the listing reported.
#[derive(Debug, PartialEq, Eq)]
pub enum FtpDirEntry {
    File(String, usize),
    Folder(String),
}

/// The mathematical value of an `FtpDirEntry`: the path as a character
/// sequence and, for a file, its reported size.
pub enum EntryModel {
    File(Seq<char>, nat),
    Folder(Seq<char>),
}

impl EntryModel {
    /// The full remote path of the modelled entry.
    pub open spec fn path(self) -> Seq<char> {
        match self {
            EntryModel::File(p, _) => p,
            EntryModel::Folder(p) => p,
        }
    }

    /// Whether the modelled entry is a folder.
    pub open spec fn is_dir(self) -> bool {
        self is Folder
    }

    /// The reported size of the modelled entry; zero for a folder.
    pub open spec fn size_of(self) -> nat {
        match self {
            EntryModel::File(_, s) => s,
            EntryModel::Folder(_) => 0,
        }
    }
}

impl View for FtpDirEntry {
    type V = EntryModel;

    open spec fn view(&self) -> EntryModel {
        match self {
            FtpDirEntry::File(p, s) => EntryModel::File(p@, *s as nat),
            FtpDirEntry::Folder(p) => EntryModel::Folder(p@),
        }
    }
}

impl DeepView for FtpDirEntry {
    type V = EntryModel;

    open spec fn deep_view(&self) -> EntryModel {
        self@
    }
}

impl Clone for FtpDirEntry {
    fn clone(&self) -> (r: Self)
        ensures
            r == *self,
    {
        match self {
            FtpDirEntry::File(p, s) => FtpDirEntry::File(p.clone(), *s),
            FtpDirEntry::Folder(p) => FtpDirEntry::Folder(p.clone()),
        }
    }
}

impl FtpDirEntry {
    /// The full remote path of the entry.
    pub fn get_full_path(&self) -> (r: String)
        ensures
            r@ == self@.path(),
    {
        match self {
            FtpDirEntry::File(p, _) => p.clone(),
            FtpDirEntry::Folder(p) => p.clone(),
        }
    }

    /// Whether the entry is a folder.
    pub fn is_dir(&self) -> (r: bool)
        ensures
            r == self@.is_dir(),
    {
        match self {
            FtpDirEntry::Folder(_) => true,
            FtpDirEntry::File(_, _) => false,
        }
    }
}

/// The predicate that keeps the folder entries of a listing.
pub open spec fn folder_pred() -> spec_fn(FtpDirEntry) -> bool {
    |e: FtpDirEntry| e@ is Folder
}

/// The predicate that keeps the file entries of a listing.
pub open spec fn file_pred() -> spec_fn(FtpDirEntry) -> bool {
    |e: FtpDirEntry| !(e@ is Folder)
}

/// Splits a listing into its folder entries and its file entries, in listing
/// order, draining the input.
pub fn categorize_entries(entries: &mut Vec<FtpDirEntry>) -> (r: (
    Vec<FtpDirEntry>,
    Vec<FtpDirEntry>,
))
    ensures
        final(entries)@.len() == 0,
        r.0@ == old(entries)@.filter(folder_pred()),
        r.1@ == old(entries)@.filter(file_pred()),
{
    let mut folders: Vec<FtpDirEntry> = Vec::new();
    let mut files: Vec<FtpDirEntry> = Vec::new();
    let n = entries.len();
    let mut i: usize = 0;
    while i < n
        invariant
            0 <= i <= n,
            n == entries@.len(),
            entries@ == old(entries)@,
            folders@ == entries@.take(i as int).filter(folder_pred()),
            files@ == entries@.take(i as int).filter(file_pred()),
        decreases n - i,
    {
        let e = entries[i].clone();
        proof {
            let prefix = entries@.take(i + 1 as int);
            assert(prefix.drop_last() =~= entries@.take(i as int));
            assert(prefix.last() == entries@[i as int]);
            reveal(Seq::filter);
        }
        if e.is_dir() {
            folders.push(e);
        } else {
            files.push(e);
        }
        i = i + 1;
    }
    proof {
        assert(entries@.take(n as int) =~= entries@);
    }
    entries.clear();
    (folders, files)
}

/// The path of a child of `base` named `name`.
pub open spec fn abs_path(base: Seq<char>, name: Seq<char>) -> Seq<char> {
    base + seq!['/'] + name
}

/// Joins a base path and a child name with a separator.
pub fn get_absolute_path(path: &str, name: &str) -> (r: String)
    ensures
        r@ == abs_path(path@, name@),
{
    let mut r = path.to_owned();
    r.append("/");
    r.append(name);
    proof {
        reveal_strlit("/");
        assert("/"@ =~= seq!['/']);
    }
    r
}

/// `path` with a leading `root` removed; `path` itself if `root` is not a
/// prefix of it.
pub open spec fn relative_to_root(path: Seq<char>, root: Seq<char>) -> Seq<char> {
    if root.is_prefix_of(path) {
        path.skip(root.len() as int)
    } else {
        path
    }
}

/// The local path a remote file is mirrored to: the remote root prefix of its
/// path is substituted with the local target folder.
pub open spec fn target_path(path: Seq<char>, dest: Seq<char>, root: Seq<char>) -> Seq<char> {
    dest + seq!['/'] + relative_to_root(path, root)
}

/// Computes the local download target of a remote path.
pub fn get_download_target_path(ftp_full_path: &str, target_folder: &str, ftp_root: &str) -> (r:
    String)
    ensures
        r@ == target_path(ftp_full_path@, target_folder@, ftp_root@),
{
    let mut r = target_folder.to_owned();
    r.append("/");
    if str_is_prefix(ftp_root, ftp_full_path) {
        let n = ftp_full_path.unicode_len();
        let m = ftp_root.unicode_len();
        r.append(ftp_full_path.substring_char(m, n));
    } else {
        r.append(ftp_full_path);
    }
    proof {
        reveal_strlit("/");
        assert("/"@ =~= seq!['/']);
    }
    r
}

// --- The trusted boundary to the listing-line parser ---

/// Whether the outside listing parser accepts a raw `LIST` line.
pub uninterp spec fn line_parses(line: Seq<char>) -> bool;

/// The kind the parser assigns to an accepted line, reduced to the classes
/// the library distinguishes: `Some(true)` for a directory, `Some(false)` for
/// a regular file, `None` for every other kind.
pub uninterp spec fn line_class(line: Seq<char>) -> Option<bool>;

/// The entry name the parser reads from an accepted line.
pub uninterp spec fn line_name(line: Seq<char>) -> Seq<char>;

/// The entry size the parser reads from an accepted line.
pub uninterp spec fn line_size(line: Seq<char>) -> nat;

/// A parsed listing line, reduced to what the library reads from it.
enum RawEntry {
    RawFile(String, usize),
    RawFolder(String),
    RawOther,
}

/// Relies on `ftp_cmd_list_parse::FtpEntry`: `new` parses one raw listing
/// line, and `kind`, `name` and `size` read the parsed entry; each result is
/// a function of the line alone.
#[verifier::external_body]
fn parse_line(line: &str) -> (r: Option<RawEntry>)
    ensures
        r is Some <==> line_parses(line@),
        match r {
            Some(RawEntry::RawFolder(name)) => line_class(line@) == Some(true) && name@
                == line_name(line@),
            Some(RawEntry::RawFile(name, size)) => line_class(line@) == Some(false) && name@
                == line_name(line@) && size as nat == line_size(line@),
            Some(RawEntry::RawOther) => line_class(line@) is None,
            None => true,
        },
{
    match ftp_cmd_list_parse::FtpEntry::new(line) {
        None => None,
        Some(e) => match e.kind() {
            ftp_cmd_list_parse::FtpEntryKind::Directory => Some(
                RawEntry::RawFolder(e.name().to_string()),
            ),
            ftp_cmd_list_parse::FtpEntryKind::File => Some(
                RawEntry::RawFile(e.name().to_string(), e.size()),
            ),
            _ => Some(RawEntry::RawOther),
        },
    }
}

/// The entry one parsed listing line at `base` contributes, if any.
pub open spec fn line_model(line: Seq<char>, base: Seq<char>) -> Seq<EntryModel> {
    if line_parses(line) {
        match line_class(line) {
            Some(true) => seq![EntryModel::Folder(abs_path(base, line_name(line)))],
            Some(false) => seq![
                EntryModel::File(abs_path(base, line_name(line)), line_size(line)),
            ],
            None => Seq::empty(),
        }
    } else {
        Seq::empty()
    }
}

/// The entries a whole raw listing at `base` contributes, in listing order.
pub open spec fn listing_model(lines: Seq<Seq<char>>, base: Seq<char>) -> Seq<EntryModel>
    decreases lines.len(),
{
    if lines.len() == 0 {
        Seq::empty()
    } else {
        line_model(lines.first(), base) + listing_model(lines.drop_first(), base)
    }
}

/// The models of a listing's entries, in order.
pub open spec fn views_of(s: Seq<FtpDirEntry>) -> Seq<EntryModel> {
    s.map_values(|e: FtpDirEntry| e@)
}

/// Parses the raw lines of one directory listing into entries whose paths are
/// absolute under `path`, ignoring lines the parser rejects and entries that
/// are neither files nor folders.
pub fn parse_ftp_entries(entries: Vec<String>, path: &str) -> (r: Vec<FtpDirEntry>)
    ensures
        views_of(r@) == listing_model(entries.deep_view(), path@),
{
    let mut out: Vec<FtpDirEntry> = Vec::new();
    let n = entries.len();
    proof {
        assert(views_of(out@) =~= Seq::<EntryModel>::empty());
        assert(entries.deep_view().skip(0) =~= entries.deep_view());
        assert(Seq::<EntryModel>::empty() + listing_model(entries.deep_view(), path@)
            =~= listing_model(entries.deep_view(), path@));
    }
    let mut i: usize = 0;
    while i < n
        invariant
            0 <= i <= n,
            n == entries@.len(),
            views_of(out@) + listing_model(entries.deep_view().skip(i as int), path@)
                == listing_model(entries.deep_view(), path@),
        decreases n - i,
    {
        let ghost dv = entries.deep_view();
        proof {
            assert(dv.skip(i as int).first() == entries@[i as int]@);
            assert(dv.skip(i as int).drop_first() =~= dv.skip(i + 1 as int));
        }
        let ghost out_pre = out@;
        match parse_line(entries[i].as_str()) {
            Some(RawEntry::RawFolder(name)) => {
                let p = get_absolute_path(path, name.as_str());
                out.push(FtpDirEntry::Folder(p));
            },
            Some(RawEntry::RawFile(name, size)) => {
                let p = get_absolute_path(path, name.as_str());
                out.push(FtpDirEntry::File(p, size));
            },
            _ => {},
        }
        proof {
            assert(views_of(out@) =~= views_of(out_pre) + line_model(dv[i as int], path@));
            assert(views_of(out@) + listing_model(dv.skip(i + 1 as int), path@) =~= (
            views_of(out_pre) + listing_model(dv.skip(i as int), path@)));
        }
        i = i + 1;
    }
    proof {
        assert(listing_model(entries.deep_view().skip(n as int), path@) =~= Seq::<
            EntryModel,
        >::empty());
        assert(views_of(out@) =~= views_of(out@) + Seq::<EntryModel>::empty());
    }
    out
}

/// Copies a listing.
pub fn clone_entries(v: &Vec<FtpDirEntry>) -> (r: Vec<FtpDirEntry>)
    ensures
        r@ == v@,
{
    let r = v.clone();
    proof {
        assert forall|i: int| 0 <= i < v@.len() implies r@[i] == v@[i] by {
            assert(cloned::<FtpDirEntry>(v@[i], r@[i]));
        }
        assert(r@ =~= v@);
    }
    r
}

/// Path order on listing entries.
pub open spec fn entry_le(a: FtpDirEntry, b: FtpDirEntry) -> bool {
    lex_le(a@.path(), b@.path())
}

/// Whether a listing is sorted ascending by full path.
pub open spec fn entries_sorted(s: Seq<FtpDirEntry>) -> bool {
    forall|i: int, j: int| 0 <= i < j < s.len() ==> entry_le(#[trigger] s[i], #[trigger] s[j])
}

/// Whether a sequence of entry models is sorted ascending by path.
pub open spec fn models_sorted(s: Seq<EntryModel>) -> bool {
    forall|i: int, j: int| 0 <= i < j < s.len() ==> lex_le((#[trigger] s[i]).path(), (#[trigger] s[j]).path())
}

/// Sorts a listing ascending by full path, by insertion sort.
pub fn sort_entries_by_path(v: &mut Vec<FtpDirEntry>)
    ensures
        entries_sorted(final(v)@),
        models_sorted(views_of(final(v)@)),
        final(v)@.to_multiset() == old(v)@.to_multiset(),
        views_of(final(v)@).to_multiset() == views_of(old(v)@).to_multiset(),
{
    proof {
        lemma_views_of_facts(v@);
    }
    let n = v.len();
    if n == 0 {
        return;
    }
    let mut i: usize = 1;
    while i < n
        invariant
            1 <= i <= n,
            n == v@.len(),
            entries_sorted(v@.take(i as int)),
            v@.to_multiset() == old(v)@.to_multiset(),
            views_of(v@).to_multiset() == views_of(old(v)@).to_multiset(),
        decreases n - i,
    {
        let mut j: usize = i;
        proof {
            assert forall|a: int, b: int| 0 <= a < b <= i && a != j && b != j implies entry_le(
                v@[a],
                v@[b],
            ) by {
                assert(entry_le(v@.take(i as int)[a], v@.take(i as int)[b]));
            }
        }
        loop
            invariant
                0 <= j <= i < n,
                n == v@.len(),
                v@.to_multiset() == old(v)@.to_multiset(),
                views_of(v@).to_multiset() == views_of(old(v)@).to_multiset(),
                forall|a: int, b: int|
                    0 <= a < b <= i && a != j && b != j ==> entry_le(
                        #[trigger] v@[a],
                        #[trigger] v@[b],
                    ),
                forall|b: int| j < b <= i ==> entry_le(v@[j as int], #[trigger] v@[b]),
            ensures
                0 <= j <= i < n,
                n == v@.len(),
                v@.to_multiset() == old(v)@.to_multiset(),
                views_of(v@).to_multiset() == views_of(old(v)@).to_multiset(),
                forall|a: int, b: int|
                    0 <= a < b <= i && a != j && b != j ==> entry_le(
                        #[trigger] v@[a],
                        #[trigger] v@[b],
                    ),
                forall|b: int| j < b <= i ==> entry_le(v@[j as int], #[trigger] v@[b]),
                j == 0 || entry_le(v@[j - 1], v@[j as int]),
            decreases j,
        {
            if j == 0 {
                break;
            }
            let pa = v[j - 1].get_full_path();
            let pb = v[j].get_full_path();
            if str_le(pa.as_str(), pb.as_str()) {
                break;
            }
            proof {
                lemma_lex_le_total(pa@, pb@);
            }
            let ghost pre = v@;
            let x = v[j - 1].clone();
            let y = v[j].clone();
            v[j - 1] = y;
            v[j] = x;
            proof {
                broadcast use vstd::seq_lib::to_multiset_update;
                broadcast use vstd::seq_lib::group_to_multiset_ensures;
                broadcast use vstd::multiset::group_multiset_axioms;

                assert(pre.contains(pre[j - 1]));
                assert(v@ == pre.update(j - 1, pre[j as int]).update(j as int, pre[j - 1]));
                assert(v@.to_multiset() =~= pre.to_multiset());
                lemma_views_of_facts(pre);
                lemma_views_of_facts(v@);
                assert(views_of(pre).contains(pre[j - 1]@));
                assert(views_of(v@) =~= views_of(pre).update(j - 1, pre[j as int]@).update(
                    j as int,
                    pre[j - 1]@,
                ));
                assert(views_of(v@).to_multiset() =~= views_of(pre).to_multiset());
            }
            j = j - 1;
        }
        proof {
            assert forall|a: int, b: int| 0 <= a < b <= i implies entry_le(v@[a], v@[b]) by {
                if j > 0 && b == j {
                    if a < j - 1 {
                        assert(entry_le(v@[a], v@[j - 1]));
                        lemma_lex_le_transitive(
                            v@[a]@.path(),
                            v@[j - 1]@.path(),
                            v@[j as int]@.path(),
                        );
                    }
                }
            }
            assert(entries_sorted(v@.take(i + 1 as int)));
        }
        i = i + 1;
    }
    proof {
        assert(v@.take(n as int) =~= v@);
        lemma_views_of_facts(v@);
    }
}

/// The length and elements of `views_of`.
pub proof fn lemma_views_of_facts(s: Seq<FtpDirEntry>)
    ensures
        views_of(s).len() == s.len(),
        forall|i: int| 0 <= i < s.len() ==> views_of(s)[i] == #[trigger] s[i]@,
{
}

} // verus!
