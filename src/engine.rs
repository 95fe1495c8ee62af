use vstd::prelude::*;
use crate::manifest::{Package, PackageView, strings_view};

verus! {

/// A path that an install created, relative to the package's destination.
#[derive(Debug)]
pub enum Created {
    /// A directory made ready for a file (the empty path is the destination itself).
    Dir(String),
    /// A file that was written.
    File(String),
}

pub enum CreatedView {
    Dir(Seq<char>),
    File(Seq<char>),
}

impl View for Created {
    type V = CreatedView;

    open spec fn view(&self) -> CreatedView {
        match self {
            Created::Dir(d) => CreatedView::Dir(d@),
            Created::File(f) => CreatedView::File(f@),
        }
    }
}

/// Index of the last `/` of `f`, or -1 where there is none.
pub open spec fn last_slash(f: Seq<char>) -> int
    decreases f.len(),
{
    if f.len() == 0 {
        -1
    } else if f.last() == '/' {
        f.len() - 1
    } else {
        last_slash(f.drop_last())
    }
}

/// The directory that holds the relative path `f`: what precedes its last `/`.
pub open spec fn parent_of(f: Seq<char>) -> Seq<char> {
    if last_slash(f) < 0 {
        Seq::empty()
    } else {
        f.take(last_slash(f))
    }
}

proof fn lemma_last_slash(f: Seq<char>, k: int)
    requires
        -1 <= k < f.len(),
        k >= 0 ==> f[k] == '/',
        forall|j: int| k < j < f.len() ==> f[j] != '/',
    ensures
        last_slash(f) == k,
    decreases f.len(),
{
    if f.len() > 0 && f.last() != '/' {
        lemma_last_slash(f.drop_last(), k);
    }
}

/// The directory that holds the relative path `f` (empty for a top-level file).
pub fn parent_dir(f: &str) -> (r: String)
    ensures
        r@ == parent_of(f@),
{
    let n: usize = f.unicode_len();
    let mut k: usize = n;
    while k > 0 && f.get_char(k - 1) != '/'
        invariant
            k <= n == f@.len(),
            forall|j: int| k <= j < n ==> f@[j] != '/',
        decreases k,
    {
        k = k - 1;
    }
    if k == 0 {
        proof {
            lemma_last_slash(f@, -1);
        }
        String::new()
    } else {
        proof {
            lemma_last_slash(f@, k - 1);
        }
        String::from_str(f.substring_char(0, k - 1))
    }
}

/// The state of a file-materialization run over a manifest's file list.
pub struct LoadView {
    /// The files to write, in manifest order.
    pub files: Seq<Seq<char>>,
    /// How many of them have been written.
    pub next: nat,
    /// Everything created so far, in order: the rollback set.
    pub created: Seq<CreatedView>,
    /// Whether a copy failed (the run then stops).
    pub failed: bool,
}

pub open spec fn load_wf(m: LoadView) -> bool {
    &&& m.next <= m.files.len()
    &&& m.failed ==> m.next < m.files.len()
}

/// A run that has written nothing yet.
pub open spec fn load_start(files: Seq<Seq<char>>) -> LoadView {
    LoadView { files, next: 0, created: Seq::empty(), failed: false }
}

/// The run can still write a file.
pub open spec fn load_pending(m: LoadView) -> bool {
    !m.failed && m.next < m.files.len()
}

/// One copy of the next file: its directory is recorded when it was made
/// ready, the file when it was written; a failed copy stops the run.
pub open spec fn load_step(m: LoadView, dir_ready: bool, copied: bool) -> LoadView {
    let f = m.files[m.next as int];
    let c = if dir_ready {
        m.created.push(CreatedView::Dir(parent_of(f)))
    } else {
        m.created
    };
    if copied {
        LoadView { next: m.next + 1, created: c.push(CreatedView::File(f)), ..m }
    } else {
        LoadView { created: c, failed: true, ..m }
    }
}

/// The run driven by a sequence of copy outcomes `(dir_ready, copied)`,
/// until it completes or fails.
pub open spec fn load_run(m: LoadView, evs: Seq<(bool, bool)>) -> LoadView
    decreases evs.len(),
{
    if evs.len() == 0 || !load_pending(m) {
        m
    } else {
        load_run(load_step(m, evs[0].0, evs[0].1), evs.skip(1))
    }
}

/// The files among a list of created paths, in order.
pub open spec fn written(c: Seq<CreatedView>) -> Seq<Seq<char>>
    decreases c.len(),
{
    if c.len() == 0 {
        Seq::empty()
    } else {
        match c.last() {
            CreatedView::File(f) => written(c.drop_last()).push(f),
            CreatedView::Dir(_) => written(c.drop_last()),
        }
    }
}

/// Writes the files of a manifest one by one, in order, and keeps the set of
/// paths created so far, so that a failed copy can be rolled back.
pub struct Loader {
    files: Vec<String>,
    next: usize,
    created: Vec<Created>,
    failed: bool,
}

impl View for Loader {
    type V = LoadView;

    closed spec fn view(&self) -> LoadView {
        LoadView {
            files: strings_view(self.files@),
            next: self.next as nat,
            created: self.created@.map_values(|c: Created| c@),
            failed: self.failed,
        }
    }
}

fn copy_strings(v: &Vec<String>) -> (r: Vec<String>)
    ensures
        strings_view(r@) == strings_view(v@),
{
    let mut r: Vec<String> = Vec::new();
    let mut i: usize = 0;
    while i < v.len()
        invariant
            i <= v@.len(),
            r@.len() == i,
            forall|j: int| 0 <= j < i ==> (#[trigger] r@[j])@ == v@[j]@,
        decreases v@.len() - i,
    {
        let c = v[i].clone();
        assert(c@ == v@[i as int]@);
        r.push(c);
        i = i + 1;
    }
    assert(strings_view(r@) =~= strings_view(v@));
    r
}

impl Loader {
    /// A run over `files` that has written nothing yet.
    pub fn new(files: &Vec<String>) -> (r: Loader)
        ensures
            r@ == load_start(strings_view(files@)),
            load_wf(r@),
    {
        let r = Loader { files: copy_strings(files), next: 0, created: Vec::new(), failed: false };
        assert(r@.created =~= Seq::<CreatedView>::empty());
        r
    }

    /// The index of the file to write next, while the run can go on.
    pub fn pending(&self) -> (r: Option<usize>)
        requires
            load_wf(self@),
        ensures
            r == (if load_pending(self@) { Some(self@.next as usize) } else { None::<usize> }),
    {
        if !self.failed && self.next < self.files.len() {
            Some(self.next)
        } else {
            None
        }
    }

    /// The file to write next.
    pub fn current(&self) -> (r: &String)
        requires
            load_wf(self@),
            load_pending(self@),
        ensures
            r@ == self@.files[self@.next as int],
    {
        &self.files[self.next]
    }

    /// Records the outcome of copying the current file: whether its directory
    /// was made ready, and whether the file was written.
    pub fn record(&mut self, dir_ready: bool, copied: bool)
        requires
            load_wf(old(self)@),
            load_pending(old(self)@),
        ensures
            final(self)@ == load_step(old(self)@, dir_ready, copied),
            load_wf(final(self)@),
    {
        let ghost m = self@;
        let n: usize = self.next;
        let len: usize = self.files.len();
        assert(n < len);
        let f = self.files[self.next].clone();
        if dir_ready {
            let d = parent_dir(f.as_str());
            self.created.push(Created::Dir(d));
        }
        if copied {
            self.created.push(Created::File(f));
            self.next = n + 1;
        } else {
            self.failed = true;
        }
        assert(self@.created =~= load_step(m, dir_ready, copied).created);
    }

    /// Every file of the list has been written.
    pub fn is_complete(&self) -> (r: bool)
        ensures
            r == (!self@.failed && self@.next == self@.files.len()),
    {
        !self.failed && self.next == self.files.len()
    }

    /// A copy failed and the run stopped.
    pub fn is_failed(&self) -> (r: bool)
        ensures
            r == self@.failed,
    {
        self.failed
    }

    /// The paths created so far, in order: what a rollback removes.
    pub fn created(&self) -> (r: &Vec<Created>)
        ensures
            r@.map_values(|c: Created| c@) == self@.created,
    {
        &self.created
    }
}

proof fn lemma_written_step(m: LoadView, dir_ready: bool, copied: bool)
    requires
        load_wf(m),
        load_pending(m),
    ensures
        written(load_step(m, dir_ready, copied).created) == (if copied {
            written(m.created).push(m.files[m.next as int])
        } else {
            written(m.created)
        }),
{
    let f = m.files[m.next as int];
    let c = if dir_ready {
        m.created.push(CreatedView::Dir(parent_of(f)))
    } else {
        m.created
    };
    if dir_ready {
        assert(c.drop_last() =~= m.created);
        assert(c.last() == CreatedView::Dir(parent_of(f)));
    }
    assert(written(c) == written(m.created));
    if copied {
        let c2 = c.push(CreatedView::File(f));
        assert(c2.drop_last() =~= c);
        assert(c2.last() == CreatedView::File(f));
        assert(written(c2) == written(c).push(f));
    }
}

/// From state `m`, the next `k` copies succeed and then, if `fails`, one fails.
proof fn lemma_run_prefix(m: LoadView, evs: Seq<(bool, bool)>, k: nat, fails: bool)
    requires
        load_wf(m),
        !m.failed,
        k <= evs.len(),
        forall|j: int| 0 <= j < k ==> (#[trigger] evs[j]).1,
        fails ==> m.next + k < m.files.len() && k < evs.len() && !evs[k as int].1,
        !fails ==> m.next + k == m.files.len(),
    ensures
        load_run(m, evs).failed == fails,
        load_run(m, evs).next == (m.next + k) as int,
        load_run(m, evs).files == m.files,
        written(load_run(m, evs).created) == written(m.created) + m.files.subrange(
            m.next as int,
            (m.next + k) as int,
        ),
    decreases evs.len(),
{
    if k == 0 {
        if fails {
            lemma_written_step(m, evs[0].0, evs[0].1);
            let m2 = load_step(m, evs[0].0, evs[0].1);
            assert(load_run(m2, evs.skip(1)) == m2);
        }
        assert(m.files.subrange(m.next as int, m.next as int) =~= Seq::<Seq<char>>::empty());
        assert(written(m.created) + Seq::<Seq<char>>::empty() =~= written(m.created));
    } else {
        assert(evs[0].1);
        lemma_written_step(m, evs[0].0, evs[0].1);
        let m2 = load_step(m, evs[0].0, evs[0].1);
        let rest = evs.skip(1);
        assert forall|j: int| 0 <= j < k - 1 implies (#[trigger] rest[j]).1 by {
            assert(rest[j] == evs[j + 1]);
        }
        if fails {
            assert(rest[k - 1] == evs[k as int]);
        }
        lemma_run_prefix(m2, rest, (k - 1) as nat, fails);
        assert(written(m.created).push(m.files[m.next as int]) + m.files.subrange(
            (m.next + 1) as int,
            (m.next + k) as int,
        ) =~= written(m.created) + m.files.subrange(m.next as int, (m.next + k) as int));
    }
}

/// A run in which every copy succeeds writes every file of the list, in
/// manifest order, and completes.
pub proof fn lemma_load_writes_every_file(files: Seq<Seq<char>>, evs: Seq<(bool, bool)>)
    requires
        evs.len() == files.len(),
        forall|j: int| 0 <= j < evs.len() ==> (#[trigger] evs[j]).1,
    ensures
        !load_run(load_start(files), evs).failed,
        load_run(load_start(files), evs).next == files.len(),
        written(load_run(load_start(files), evs).created) == files,
{
    let m = load_start(files);
    lemma_run_prefix(m, evs, files.len(), false);
    assert(written(m.created) =~= Seq::<Seq<char>>::empty());
    assert(Seq::<Seq<char>>::empty() + files.subrange(0, files.len() as int) =~= files);
}

/// When the copy of file `i` fails after the files before it were written,
/// the run stops; its rollback set holds exactly the files before `i`, and
/// no directory but those of the files up to `i`.
pub proof fn lemma_failed_copy_rolls_back(files: Seq<Seq<char>>, evs: Seq<(bool, bool)>, i: nat)
    requires
        i < files.len(),
        i < evs.len(),
        forall|j: int| 0 <= j < i ==> (#[trigger] evs[j]).1,
        !evs[i as int].1,
    ensures
        load_run(load_start(files), evs).failed,
        load_run(load_start(files), evs).next == i,
        written(load_run(load_start(files), evs).created) == files.take(i as int),
        dirs_within(load_run(load_start(files), evs).created, files, (i + 1) as int),
{
    let m = load_start(files);
    lemma_run_prefix(m, evs, i, true);
    assert(written(m.created) =~= Seq::<Seq<char>>::empty());
    assert(Seq::<Seq<char>>::empty() + files.subrange(0, i as int) =~= files.take(i as int));
    assert(files.take(0) =~= Seq::<Seq<char>>::empty());
    lemma_run_written(m, evs);
}

/// The files of `files` whose flag in `present` is set, in order.
pub open spec fn existing_of(files: Seq<Seq<char>>, present: Seq<bool>) -> Seq<Seq<char>>
    decreases files.len(),
{
    if files.len() == 0 || present.len() == 0 {
        Seq::empty()
    } else {
        let e = existing_of(files.drop_last(), present.drop_last());
        if present.last() {
            e.push(files.last())
        } else {
            e
        }
    }
}

/// What an install decides, before any file is written.
pub enum InstallPlan {
    /// Some listed files already exist (those given): nothing is written.
    AlreadyInstalled(Vec<String>),
    /// Write every listed file with this run.
    Load(Loader),
}

/// What an update decides, once the candidate manifest is known.
pub enum UpdatePlan {
    /// The package is not installed: nothing is written.
    NotInstalled,
    /// The candidate version is not greater than the installed one: nothing is written.
    NotAnUpgrade,
    /// Rewrite the manifest, then every listed file with this run.
    Load(Loader),
}

/// How many listed files an install writes when the files flagged in
/// `present` exist.
pub open spec fn install_writes(p: PackageView, present: Seq<bool>) -> nat {
    if existing_of(p.files, present).len() > 0 {
        0
    } else {
        p.files.len()
    }
}

impl Package {
    /// The listed files that already exist, given for each listed file
    /// whether it exists under the destination.
    pub fn existing_files(&self, present: &Vec<bool>) -> (r: Vec<String>)
        requires
            present@.len() == self@.files.len(),
        ensures
            strings_view(r@) == existing_of(self@.files, present@),
    {
        let files = self.files();
        let mut r: Vec<String> = Vec::new();
        let mut i: usize = 0;
        while i < files.len()
            invariant
                strings_view(files@) == self@.files,
                present@.len() == files@.len(),
                i <= files@.len(),
                strings_view(r@) == existing_of(
                    strings_view(files@).take(i as int),
                    present@.take(i as int),
                ),
            decreases files@.len() - i,
        {
            let ghost fs = strings_view(files@);
            assert(fs.take(i + 1).drop_last() =~= fs.take(i as int));
            assert(present@.take(i + 1).drop_last() =~= present@.take(i as int));
            if present[i] {
                let f = files[i].clone();
                r.push(f);
                assert(strings_view(r@) =~= existing_of(fs.take(i as int), present@.take(i as int)).push(fs[i as int]));
            } else {
                assert(strings_view(r@) =~= existing_of(fs.take(i as int), present@.take(i as int)));
            }
            i = i + 1;
        }
        assert(strings_view(files@).take(i as int) =~= self@.files);
        assert(present@.take(i as int) =~= present@);
        r
    }

    /// A run that writes the listed files in manifest order.
    pub fn load(&self) -> (r: Loader)
        ensures
            r@ == load_start(self@.files),
            load_wf(r@),
    {
        Loader::new(self.files())
    }

    /// Decides a fresh install from which listed files already exist: when
    /// any does, nothing is written; else every listed file is.
    pub fn install(&self, present: &Vec<bool>) -> (r: InstallPlan)
        requires
            present@.len() == self@.files.len(),
        ensures
            existing_of(self@.files, present@).len() > 0 ==> (r matches InstallPlan::AlreadyInstalled(e)
                && strings_view(e@) == existing_of(self@.files, present@)),
            existing_of(self@.files, present@).len() == 0 ==> (r matches InstallPlan::Load(l) && l@
                == load_start(self@.files) && load_wf(l@)),
    {
        let existing = self.existing_files(present);
        if existing.len() > 0 {
            InstallPlan::AlreadyInstalled(existing)
        } else {
            InstallPlan::Load(self.load())
        }
    }

    /// Decides an update: only an installed package whose candidate version
    /// is greater than the installed one is rewritten, all of its files.
    pub fn update(&self, installed: bool, version_increased: bool) -> (r: UpdatePlan)
        ensures
            !installed ==> r is NotInstalled,
            installed && !version_increased ==> r is NotAnUpgrade,
            installed && version_increased ==> (r matches UpdatePlan::Load(l) && l@ == load_start(
                self@.files,
            ) && load_wf(l@)),
    {
        if !installed {
            UpdatePlan::NotInstalled
        } else if !version_increased {
            UpdatePlan::NotAnUpgrade
        } else {
            UpdatePlan::Load(self.load())
        }
    }
}

/// Every directory in `c` is the directory of one of the first `n` files.
pub open spec fn dirs_within(c: Seq<CreatedView>, files: Seq<Seq<char>>, n: int) -> bool {
    forall|k: int|
        0 <= k < c.len() && (#[trigger] c[k]) is Dir ==> exists|j: int|
            0 <= j < n && j < files.len() && c[k] == CreatedView::Dir(parent_of(#[trigger] files[j]))
}

/// The files a run has attempted: those written, and the one that failed.
pub open spec fn attempted(m: LoadView) -> int {
    if m.failed {
        (m.next + 1) as int
    } else {
        m.next as int
    }
}

/// Every run keeps the written files equal to the prefix of the list it has
/// done, and records only directories of files it attempted.
proof fn lemma_run_written(m: LoadView, evs: Seq<(bool, bool)>)
    requires
        load_wf(m),
        written(m.created) == m.files.take(m.next as int),
        dirs_within(m.created, m.files, attempted(m)),
    ensures
        load_wf(load_run(m, evs)),
        load_run(m, evs).files == m.files,
        written(load_run(m, evs).created) == m.files.take(load_run(m, evs).next as int),
        dirs_within(load_run(m, evs).created, m.files, attempted(load_run(m, evs))),
    decreases evs.len(),
{
    if evs.len() > 0 && load_pending(m) {
        lemma_written_step(m, evs[0].0, evs[0].1);
        let m2 = load_step(m, evs[0].0, evs[0].1);
        let f = m.files[m.next as int];
        assert forall|k: int|
            0 <= k < m2.created.len() && (#[trigger] m2.created[k]) is Dir implies exists|j: int|
                0 <= j < attempted(m2) && j < m.files.len() && m2.created[k] == CreatedView::Dir(
                    parent_of(#[trigger] m.files[j]),
                ) by {
            if k < m.created.len() {
                assert(m2.created[k] == m.created[k]);
                let j = choose|j: int|
                    0 <= j < attempted(m) && j < m.files.len() && m.created[k] == CreatedView::Dir(
                        parent_of(#[trigger] m.files[j]),
                    );
                assert(m2.created[k] == CreatedView::Dir(parent_of(m.files[j])));
            } else {
                assert(m2.created[k] == CreatedView::Dir(parent_of(m.files[m.next as int])));
            }
        }
        assert(m.files.take(m.next as int).push(m.files[m.next as int]) =~= m.files.take(
            (m.next + 1) as int,
        ));
        lemma_run_written(m2, evs.skip(1));
    }
}

proof fn lemma_existing_all(files: Seq<Seq<char>>, present: Seq<bool>)
    requires
        present.len() == files.len(),
        forall|j: int| 0 <= j < present.len() ==> #[trigger] present[j],
    ensures
        existing_of(files, present) == files,
    decreases files.len(),
{
    if files.len() > 0 {
        lemma_existing_all(files.drop_last(), present.drop_last());
        assert(files.drop_last().push(files.last()) =~= files);
    }
}

/// After a run that wrote every file of a package, a second install finds
/// them present and writes none of them.
pub proof fn lemma_reinstall_writes_nothing(p: PackageView, evs: Seq<(bool, bool)>, present: Seq<bool>)
    requires
        !load_run(load_start(p.files), evs).failed,
        load_run(load_start(p.files), evs).next == p.files.len(),
        present.len() == p.files.len(),
        forall|j: int|
            0 <= j < p.files.len() && written(load_run(load_start(p.files), evs).created).contains(
                #[trigger] p.files[j],
            ) ==> present[j],
    ensures
        install_writes(p, present) == 0,
{
    let r = load_run(load_start(p.files), evs);
    assert(written(load_start(p.files).created) =~= p.files.take(0));
    lemma_run_written(load_start(p.files), evs);
    assert(p.files.take(p.files.len() as int) =~= p.files);
    assert forall|j: int| 0 <= j < present.len() implies #[trigger] present[j] by {
        assert(written(r.created)[j] == p.files[j]);
    }
    lemma_existing_all(p.files, present);
}

} // verus!
