use vstd::prelude::*;
use vstd::string::StringExecFns;
use crate::error::CustomError;
use crate::strings::{ends_with_nocase, str_ends_with_nocase};
use crate::utils::{
    clone_entries, models_sorted, sort_entries_by_path, views_of, EntryModel, FtpDirEntry,
};

verus! {

/// The mathematical value of an `Order`: its root remote path, its local
/// destination, and its file and folder lists once it is resolved.
pub struct OrderModel {
    pub root: Seq<char>,
    pub dest: Seq<char>,
    pub files: Option<Seq<EntryModel>>,
    pub folders: Option<Seq<EntryModel>>,
}

/// One unit of work: a discovered remote folder tracked from discovery to
/// remote cleanup.  Its identity is its root remote path.  It is resolved
/// once a full recursive listing has populated its file and folder lists
/// together; only a resolved order can be downloaded.
#[derive(Debug)]
pub struct Order {
    root_path: String,
    download_target_path: String,
    files: Option<Vec<FtpDirEntry>>,
    folders: Option<Vec<FtpDirEntry>>,
}

impl View for Order {
    type V = OrderModel;

    closed spec fn view(&self) -> OrderModel {
        OrderModel {
            root: self.root_path@,
            dest: self.download_target_path@,
            files: match self.files {
                Some(v) => Some(views_of(v@)),
                None => None,
            },
            folders: match self.folders {
                Some(v) => Some(views_of(v@)),
                None => None,
            },
        }
    }
}

/// An order's two lists are populated together: both absent before
/// resolution, both present after.
pub open spec fn order_wf(m: OrderModel) -> bool {
    m.files is Some <==> m.folders is Some
}

impl Clone for Order {
    fn clone(&self) -> (r: Self)
        ensures
            r@ == self@,
    {
        let r = Order {
            root_path: self.root_path.clone(),
            download_target_path: self.download_target_path.clone(),
            files: match &self.files {
                Some(v) => Some(clone_entries(v)),
                None => None,
            },
            folders: match &self.folders {
                Some(v) => Some(clone_entries(v)),
                None => None,
            },
        };
        r
    }
}

impl PartialEq for Order {
    /// Two orders are the same job exactly when they share a root path,
    /// whatever their resolution state.
    fn eq(&self, other: &Order) -> (r: bool) {
        self.root_path == other.root_path
    }
}

impl vstd::std_specs::cmp::PartialEqSpecImpl for Order {
    open spec fn obeys_eq_spec() -> bool {
        true
    }

    open spec fn eq_spec(&self, other: &Order) -> bool {
        self@.root == other@.root
    }
}

impl Order {
    /// A fresh, unresolved order for the discovered folder `dir`, to be
    /// mirrored under `local_dest`.
    pub fn new(dir: &FtpDirEntry, local_dest: &str) -> (r: Order)
        ensures
            r@.root == dir@.path(),
            r@.dest == local_dest@,
            r@.files is None,
            r@.folders is None,
            order_wf(r@),
    {
        Order {
            root_path: dir.get_full_path(),
            download_target_path: local_dest.to_owned(),
            files: None,
            folders: None,
        }
    }

    /// The root remote path: the identity of the order.
    pub fn get_root_path(&self) -> (r: String)
        ensures
            r@ == self@.root,
    {
        self.root_path.clone()
    }

    /// The resolved file list, if the order is resolved.
    pub fn get_files_list(&self) -> (r: Option<Vec<FtpDirEntry>>)
        ensures
            match r {
                Some(v) => self@.files == Some(views_of(v@)),
                None => self@.files is None,
            },
    {
        match &self.files {
            Some(v) => Some(clone_entries(v)),
            None => None,
        }
    }

    /// The resolved folder list, if the order is resolved.
    pub fn get_folders_list(&self) -> (r: Option<Vec<FtpDirEntry>>)
        ensures
            match r {
                Some(v) => self@.folders == Some(views_of(v@)),
                None => self@.folders is None,
            },
    {
        match &self.folders {
            Some(v) => Some(clone_entries(v)),
            None => None,
        }
    }

    /// What a download of this order must transfer: its resolved file list
    /// and its local destination.  An unresolved order cannot be downloaded
    /// and yields a local I/O error instead.
    pub fn download_request(&self) -> (r: Result<(Vec<FtpDirEntry>, String), CustomError>)
        ensures
            match r {
                Ok(p) => self@.files == Some(views_of(p.0@)) && p.1@ == self@.dest,
                Err(e) => self@.files is None && e is Io,
            },
    {
        match &self.files {
            Some(v) => Ok((clone_entries(v), self.download_target_path.clone())),
            None => Err(
                CustomError::Io(
                    String::from_str("job was not initialized properly (file list is None)"),
                ),
            ),
        }
    }

    /// Starts resolving this order: the root folder is waiting to be listed
    /// and already stands in the folder list.
    pub fn begin_resolve(&self) -> (r: Resolution)
        ensures
            r@.root == self@.root,
            r@.work == seq![self@.root],
            r@.folders == seq![EntryModel::Folder(self@.root)],
            r@.files == Seq::<EntryModel>::empty(),
            resolution_inv(r@),
    {
        let mut work: Vec<String> = Vec::new();
        work.push(self.root_path.clone());
        let mut folders: Vec<FtpDirEntry> = Vec::new();
        folders.push(FtpDirEntry::Folder(self.root_path.clone()));
        let r = Resolution { root: self.root_path.clone(), work, folders, files: Vec::new() };
        proof {
            assert(r@.work =~= seq![self@.root]);
            assert(r@.folders =~= seq![EntryModel::Folder(self@.root)]);
            assert(r@.folders[0] == EntryModel::Folder(self@.root));
        }
        r
    }

    /// Completes resolution: the accumulated folder list, sorted ascending
    /// by path, and the accumulated file list are installed together.  The
    /// folder list of a resolved order holds the same folders the traversal
    /// visited — the root among them — sorted ascending by path.
    pub fn finish_resolve(&mut self, res: Resolution)
        requires
            old(self)@.root == res@.root,
            res@.work.len() == 0,
            resolution_inv(res@),
        ensures
            final(self)@.root == old(self)@.root,
            final(self)@.dest == old(self)@.dest,
            final(self)@.files == Some(res@.files),
            match final(self)@.folders {
                Some(f) => models_sorted(f) && f.to_multiset() == res@.folders.to_multiset()
                    && f.contains(EntryModel::Folder(final(self)@.root)),
                None => false,
            },
            order_wf(final(self)@),
    {
        let ghost resm = res@;
        let Resolution { root: _, work: _, mut folders, files } = res;
        sort_entries_by_path(&mut folders);
        proof {
            broadcast use vstd::seq_lib::group_to_multiset_ensures;

            let root_folder = EntryModel::Folder(self@.root);
            assert(resm.folders.to_multiset().count(root_folder) > 0);
            assert(views_of(folders@).to_multiset().count(root_folder) > 0);
            assert(views_of(folders@).contains(root_folder));
        }
        self.folders = Some(folders);
        self.files = Some(files);
    }
}

/// The mathematical value of a resolution in progress: the root being
/// resolved, the folder paths still to list, and the entries gathered so
/// far.
pub struct ResolutionModel {
    pub root: Seq<char>,
    pub work: Seq<Seq<char>>,
    pub folders: Seq<EntryModel>,
    pub files: Seq<EntryModel>,
}

/// The iterative traversal of one order's folder tree: a work stack of
/// folders still to list, and the files and folders gathered so far.  The
/// caller lists the next target and hands the entries back, one folder at a
/// time, until no work is left.
pub struct Resolution {
    root: String,
    work: Vec<String>,
    folders: Vec<FtpDirEntry>,
    files: Vec<FtpDirEntry>,
}

impl View for Resolution {
    type V = ResolutionModel;

    closed spec fn view(&self) -> ResolutionModel {
        ResolutionModel {
            root: self.root@,
            work: self.work.deep_view(),
            folders: views_of(self.folders@),
            files: views_of(self.files@),
        }
    }
}

/// Throughout a resolution, the root stands in the gathered folder list.
pub open spec fn resolution_inv(m: ResolutionModel) -> bool {
    m.folders.contains(EntryModel::Folder(m.root))
}

/// The folder entries of a listing, as folder paths for the work stack.
pub open spec fn folder_paths_of(s: Seq<EntryModel>) -> Seq<Seq<char>> {
    s.filter(|e: EntryModel| e is Folder).map_values(|e: EntryModel| e.path())
}

/// The folder entries of a listing.
pub open spec fn model_folders_of(s: Seq<EntryModel>) -> Seq<EntryModel> {
    s.filter(|e: EntryModel| e is Folder)
}

/// The file entries of a listing.
pub open spec fn model_files_of(s: Seq<EntryModel>) -> Seq<EntryModel> {
    s.filter(|e: EntryModel| !(e is Folder))
}

impl Resolution {
    /// The folder to list next, if any work is left.
    pub fn next_target(&self) -> (r: Option<String>)
        ensures
            match r {
                Some(p) => self@.work.len() > 0 && p@ == self@.work.last(),
                None => self@.work.len() == 0,
            },
    {
        if self.work.len() == 0 {
            None
        } else {
            Some(self.work[self.work.len() - 1].clone())
        }
    }

    /// Whether the traversal has listed every discovered folder.
    pub fn finished(&self) -> (r: bool)
        ensures
            r == (self@.work.len() == 0),
    {
        self.work.len() == 0
    }

    /// Consumes the listing of the current target: its subfolders join the
    /// work stack and the folder list, its files join the file list.
    pub fn step(&mut self, entries: Vec<FtpDirEntry>)
        requires
            old(self)@.work.len() > 0,
        ensures
            final(self)@.root == old(self)@.root,
            final(self)@.work == old(self)@.work.drop_last() + folder_paths_of(
                views_of(entries@),
            ),
            final(self)@.folders == old(self)@.folders + model_folders_of(views_of(entries@)),
            final(self)@.files == old(self)@.files + model_files_of(views_of(entries@)),
            resolution_inv(old(self)@) ==> resolution_inv(final(self)@),
    {
        let ghost m0 = self@;
        let _ = self.work.pop();
        proof {
            reveal(Seq::filter);
            assert(views_of(entries@.take(0)) =~= Seq::<EntryModel>::empty());
            assert(self@.work =~= m0.work.drop_last() + folder_paths_of(
                views_of(entries@.take(0)),
            ));
            assert(self@.folders =~= m0.folders + model_folders_of(views_of(entries@.take(0))));
            assert(self@.files =~= m0.files + model_files_of(views_of(entries@.take(0))));
        }
        let n = entries.len();
        let mut i: usize = 0;
        while i < n
            invariant
                0 <= i <= n,
                n == entries@.len(),
                self@.root == m0.root,
                m0.work.len() > 0,
                self@.work == m0.work.drop_last() + folder_paths_of(
                    views_of(entries@.take(i as int)),
                ),
                self@.folders == m0.folders + model_folders_of(views_of(entries@.take(i as int))),
                self@.files == m0.files + model_files_of(views_of(entries@.take(i as int))),
            decreases n - i,
        {
            let ghost pre = self@;
            let ghost prev_vs = views_of(entries@.take(i as int));
            let ghost vs = views_of(entries@.take(i + 1 as int));
            let e = entries[i].clone();
            proof {
                reveal(Seq::filter);
                assert(vs.drop_last() =~= prev_vs);
                assert(vs.last() == entries@[i as int]@);
            }
            if e.is_dir() {
                let p = e.get_full_path();
                self.work.push(p);
                self.folders.push(e);
                proof {
                    reveal(Seq::filter);
                    let x = entries@[i as int]@;
                    assert(model_folders_of(vs) =~= model_folders_of(prev_vs).push(x));
                    assert(model_files_of(vs) =~= model_files_of(prev_vs));
                    assert(folder_paths_of(vs) =~= folder_paths_of(prev_vs).push(x.path()));
                    assert(self@.work =~= pre.work.push(x.path()));
                    assert(self@.folders =~= pre.folders.push(x));
                    assert(self@.work =~= m0.work.drop_last() + folder_paths_of(vs));
                    assert(self@.folders =~= m0.folders + model_folders_of(vs));
                    assert(self@.files =~= m0.files + model_files_of(vs));
                }
            } else {
                self.files.push(e);
                proof {
                    reveal(Seq::filter);
                    let x = entries@[i as int]@;
                    assert(model_folders_of(vs) =~= model_folders_of(prev_vs));
                    assert(model_files_of(vs) =~= model_files_of(prev_vs).push(x));
                    assert(folder_paths_of(vs) =~= folder_paths_of(prev_vs));
                    assert(self@.files =~= pre.files.push(x));
                    assert(self@.work =~= m0.work.drop_last() + folder_paths_of(vs));
                    assert(self@.folders =~= m0.folders + model_folders_of(vs));
                    assert(self@.files =~= m0.files + model_files_of(vs));
                }
            }
            i = i + 1;
        }
        proof {
            assert(entries@.take(n as int) =~= entries@);
            if resolution_inv(m0) {
                let k = choose|k: int|
                    0 <= k < m0.folders.len() && m0.folders[k] == EntryModel::Folder(m0.root);
                assert(self@.folders[k] == EntryModel::Folder(m0.root));
            }
        }
    }
}

/// Whether a listing of a folder's immediate children holds a ready marker:
/// a non-folder entry whose path ends, compared up to ASCII case, with the
/// configured marker suffix.
pub open spec fn listing_has_ready_marker(entries: Seq<EntryModel>, suffix: Seq<char>) -> bool {
    exists|i: int|
        0 <= i < entries.len() && !(#[trigger] entries[i]).is_dir() && ends_with_nocase(
            entries[i].path(),
            suffix,
        )
}

/// Decides, from the immediate children of an order's root folder, whether
/// the folder is ready for download: the producer has dropped a marker file
/// whose name ends with the configured suffix directly inside it.
pub fn is_ready_for_download(entries: &Vec<FtpDirEntry>, ready_suffix: &str) -> (r: bool)
    ensures
        r == listing_has_ready_marker(views_of(entries@), ready_suffix@),
{
    let n = entries.len();
    let mut i: usize = 0;
    while i < n
        invariant
            0 <= i <= n,
            n == entries@.len(),
            forall|j: int|
                0 <= j < i ==> !(!(#[trigger] views_of(entries@)[j]).is_dir()
                    && ends_with_nocase(views_of(entries@)[j].path(), ready_suffix@)),
        decreases n - i,
    {
        if !entries[i].is_dir() {
            let p = entries[i].get_full_path();
            if str_ends_with_nocase(p.as_str(), ready_suffix) {
                proof {
                    assert(views_of(entries@)[i as int] == entries@[i as int]@);
                }
                return true;
            }
        }
        i = i + 1;
    }
    false
}

} // verus!
