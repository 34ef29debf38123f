//! The asset store: the relational table of announcement records together
//! with a model of the filesystem trees that hold the audio assets.
//!
//! The table maps a (display name, user id) pair to the clip selected for
//! that pair and its random-mode flag. The filesystem side consists of the
//! clip libraries (one directory per display name, holding clip names in
//! enumeration order), the cached synthesized fallback assets, the
//! pending-synthesis markers, and the processing workspace of in-flight
//! ingestions. The embedding program mirrors every transition of this model
//! onto the real database and directory trees.

use vstd::prelude::*;

verus! {

/// One row of the relational table: the selection state for one
/// (display name, user id) pair.
pub struct AnnouncementRecord {
    pub display_name: String,
    pub user_id: u64,
    pub active_file: Option<String>,
    pub random_enabled: bool,
}

/// Ghost image of one record.
pub ghost struct RecordEntry {
    pub active_file: Option<Seq<char>>,
    pub random_enabled: bool,
}

/// A library directory: the clips published under one display name.
pub struct LibraryDir {
    pub display_name: String,
    pub clips: Vec<String>,
}

/// The two intermediate files an ingestion attempt may hold in the
/// processing workspace.
#[derive(Clone, Copy, PartialEq, Eq, Structural, Debug)]
pub enum WorkKind {
    Raw,
    Processed,
}

/// One file of the processing workspace, named by the ingestion attempt
/// that owns it. Attempts are keyed by a unique job id, never by the
/// caller-chosen clip name, so concurrent attempts cannot collide.
#[derive(Clone, Copy, PartialEq, Eq, Structural, Debug)]
pub struct WorkspaceFile {
    pub job: u64,
    pub kind: WorkKind,
}

/// The durable state of the announcement service.
pub struct AssetStore {
    records: Vec<AnnouncementRecord>,
    dirs: Vec<LibraryDir>,
    fallbacks: Vec<String>,
    markers: Vec<String>,
    workspace: Vec<WorkspaceFile>,
    next_job: u64,
}

/// Ghost image of the whole store; every contract speaks about it.
pub ghost struct StoreView {
    /// The relational table, keyed by (display name, user id).
    pub records: Map<(Seq<char>, u64), RecordEntry>,
    /// Clip libraries: display name to the clips it holds, in enumeration
    /// order.
    pub libraries: Map<Seq<char>, Seq<Seq<char>>>,
    /// Display names for which a synthesized fallback asset is cached.
    pub fallbacks: Set<Seq<char>>,
    /// Display names with a pending-synthesis marker.
    pub markers: Set<Seq<char>>,
    /// Intermediate files currently in the processing workspace.
    pub workspace: Set<WorkspaceFile>,
    /// The next unused ingestion job id.
    pub next_job: u64,
}

pub open spec fn opt_str_view(o: Option<String>) -> Option<Seq<char>> {
    match o {
        Some(s) => Some(s@),
        None => None,
    }
}

pub open spec fn rec_key(r: AnnouncementRecord) -> (Seq<char>, u64) {
    (r.display_name@, r.user_id)
}

pub open spec fn rec_entry(r: AnnouncementRecord) -> RecordEntry {
    RecordEntry { active_file: opt_str_view(r.active_file), random_enabled: r.random_enabled }
}

/// The table a sequence of records denotes.
pub open spec fn record_map(recs: Seq<AnnouncementRecord>) -> Map<(Seq<char>, u64), RecordEntry>
    decreases recs.len(),
{
    if recs.len() == 0 {
        Map::empty()
    } else {
        record_map(recs.drop_last()).insert(rec_key(recs.last()), rec_entry(recs.last()))
    }
}

pub open spec fn record_keys_unique(recs: Seq<AnnouncementRecord>) -> bool {
    forall|i: int, j: int| 0 <= i < j < recs.len() ==> rec_key(recs[i]) != rec_key(recs[j])
}

/// The clip selected for a pair: `None` when the record is absent or its
/// selection is unset.
pub open spec fn spec_active(
    m: Map<(Seq<char>, u64), RecordEntry>,
    name: Seq<char>,
    user: u64,
) -> Option<Seq<char>> {
    if m.contains_key((name, user)) {
        m[(name, user)].active_file
    } else {
        None
    }
}

/// The random-mode flag for a pair, `false` when the record is absent.
pub open spec fn spec_random_flag(
    m: Map<(Seq<char>, u64), RecordEntry>,
    name: Seq<char>,
    user: u64,
) -> bool {
    if m.contains_key((name, user)) {
        m[(name, user)].random_enabled
    } else {
        false
    }
}

/// What an upsert of the selected clip does to the table: the record is
/// created when absent and only its selection is changed when present; the
/// random-mode flag is preserved.
pub open spec fn set_active_effect(
    m: Map<(Seq<char>, u64), RecordEntry>,
    name: Seq<char>,
    user: u64,
    clip: Seq<char>,
) -> Map<(Seq<char>, u64), RecordEntry> {
    m.insert(
        (name, user),
        RecordEntry { active_file: Some(clip), random_enabled: spec_random_flag(m, name, user) },
    )
}

/// Upserting the same selection twice yields the state one upsert yields.
pub proof fn lemma_set_active_idempotent(
    m: Map<(Seq<char>, u64), RecordEntry>,
    name: Seq<char>,
    user: u64,
    clip: Seq<char>,
)
    ensures
        set_active_effect(set_active_effect(m, name, user, clip), name, user, clip)
            == set_active_effect(m, name, user, clip),
{
    let once = set_active_effect(m, name, user, clip);
    let twice = set_active_effect(once, name, user, clip);
    assert(spec_random_flag(once, name, user) == spec_random_flag(m, name, user));
    assert(twice =~= once);
}

pub open spec fn strs_view(v: Seq<String>) -> Seq<Seq<char>> {
    v.map_values(|s: String| s@)
}

pub open spec fn strs_unique(v: Seq<String>) -> bool {
    forall|i: int, j: int| 0 <= i < j < v.len() ==> v[i]@ != v[j]@
}

pub open spec fn str_set(v: Seq<String>) -> Set<Seq<char>> {
    Set::new(|s: Seq<char>| exists|i: int| 0 <= i < v.len() && v[i]@ == s)
}

pub open spec fn dir_names_unique(dirs: Seq<LibraryDir>) -> bool {
    forall|i: int, j: int|
        0 <= i < j < dirs.len() ==> dirs[i].display_name@ != dirs[j].display_name@
}

/// The library map a sequence of directories denotes.
pub open spec fn dir_map(dirs: Seq<LibraryDir>) -> Map<Seq<char>, Seq<Seq<char>>>
    decreases dirs.len(),
{
    if dirs.len() == 0 {
        Map::empty()
    } else {
        dir_map(dirs.drop_last()).insert(
            dirs.last().display_name@,
            strs_view(dirs.last().clips@),
        )
    }
}

pub open spec fn ws_unique(v: Seq<WorkspaceFile>) -> bool {
    forall|i: int, j: int| 0 <= i < j < v.len() ==> v[i] != v[j]
}

pub open spec fn ws_set(v: Seq<WorkspaceFile>) -> Set<WorkspaceFile> {
    Set::new(|w: WorkspaceFile| exists|i: int| 0 <= i < v.len() && v[i] == w)
}

/// What publishing one clip does to the library map: the library is created
/// when absent, and the clip name is appended unless already present
/// (publishing under an existing name replaces the file's content, which the
/// model does not track, and never duplicates the entry).
pub open spec fn lib_add(
    m: Map<Seq<char>, Seq<Seq<char>>>,
    name: Seq<char>,
    clip: Seq<char>,
) -> Map<Seq<char>, Seq<Seq<char>>> {
    let cur = if m.contains_key(name) {
        m[name]
    } else {
        Seq::empty()
    };
    let upd = if cur.contains(clip) {
        cur
    } else {
        cur.push(clip)
    };
    m.insert(name, upd)
}

proof fn lemma_record_map_contains(recs: Seq<AnnouncementRecord>, k: (Seq<char>, u64))
    ensures
        record_map(recs).contains_key(k) <==> exists|i: int|
            0 <= i < recs.len() && rec_key(recs[i]) == k,
    decreases recs.len(),
{
    if recs.len() == 0 {
    } else {
        lemma_record_map_contains(recs.drop_last(), k);
        if rec_key(recs.last()) == k {
            assert(rec_key(recs[recs.len() - 1]) == k);
        } else {
            if record_map(recs).contains_key(k) {
                let i = choose|i: int|
                    0 <= i < recs.drop_last().len() && rec_key(recs.drop_last()[i]) == k;
                assert(rec_key(recs[i]) == k);
            }
            if exists|i: int| 0 <= i < recs.len() && rec_key(recs[i]) == k {
                let i = choose|i: int| 0 <= i < recs.len() && rec_key(recs[i]) == k;
                assert(i < recs.len() - 1);
                assert(rec_key(recs.drop_last()[i]) == k);
            }
        }
    }
}

proof fn lemma_record_map_index(recs: Seq<AnnouncementRecord>, i: int)
    requires
        record_keys_unique(recs),
        0 <= i < recs.len(),
    ensures
        record_map(recs).contains_key(rec_key(recs[i])),
        record_map(recs)[rec_key(recs[i])] == rec_entry(recs[i]),
    decreases recs.len(),
{
    if i == recs.len() - 1 {
    } else {
        assert(record_keys_unique(recs.drop_last())) by {
            assert(forall|x: int, y: int|
                0 <= x < y < recs.drop_last().len() ==> rec_key(recs.drop_last()[x]) != rec_key(
                    recs.drop_last()[y],
                ));
        }
        lemma_record_map_index(recs.drop_last(), i);
        assert(recs.drop_last()[i] == recs[i]);
        assert(rec_key(recs[i]) != rec_key(recs.last()));
    }
}

proof fn lemma_record_map_push(recs: Seq<AnnouncementRecord>, r: AnnouncementRecord)
    ensures
        record_map(recs.push(r)) == record_map(recs).insert(rec_key(r), rec_entry(r)),
{
    assert(recs.push(r).drop_last() =~= recs);
    assert(recs.push(r).last() == r);
}

proof fn lemma_record_map_remove(recs: Seq<AnnouncementRecord>, i: int)
    requires
        record_keys_unique(recs),
        0 <= i < recs.len(),
    ensures
        record_map(recs.remove(i)) == record_map(recs).remove(rec_key(recs[i])),
    decreases recs.len(),
{
    let k = rec_key(recs[i]);
    if i == recs.len() - 1 {
        assert(recs.remove(i) =~= recs.drop_last());
        lemma_record_map_contains(recs.drop_last(), k);
        assert(forall|j: int|
            0 <= j < recs.drop_last().len() ==> rec_key(recs.drop_last()[j]) != k);
        assert(!record_map(recs.drop_last()).contains_key(k));
        assert(record_map(recs.drop_last()).insert(k, rec_entry(recs.last())).remove(k)
            =~= record_map(recs.drop_last()));
    } else {
        assert(record_keys_unique(recs.drop_last())) by {
            assert(forall|x: int, y: int|
                0 <= x < y < recs.drop_last().len() ==> rec_key(recs.drop_last()[x]) != rec_key(
                    recs.drop_last()[y],
                ));
        }
        assert(recs.remove(i).drop_last() =~= recs.drop_last().remove(i));
        assert(recs.remove(i).last() == recs.last());
        lemma_record_map_remove(recs.drop_last(), i);
        assert(recs.drop_last()[i] == recs[i]);
        let last_k = rec_key(recs.last());
        assert(last_k != k);
        assert(record_map(recs.drop_last()).remove(k).insert(last_k, rec_entry(recs.last()))
            =~= record_map(recs.drop_last()).insert(last_k, rec_entry(recs.last())).remove(k));
    }
}

proof fn lemma_dir_map_contains(dirs: Seq<LibraryDir>, n: Seq<char>)
    ensures
        dir_map(dirs).contains_key(n) <==> exists|i: int|
            0 <= i < dirs.len() && dirs[i].display_name@ == n,
    decreases dirs.len(),
{
    if dirs.len() == 0 {
    } else {
        lemma_dir_map_contains(dirs.drop_last(), n);
        if dirs.last().display_name@ == n {
            assert(dirs[dirs.len() - 1].display_name@ == n);
        } else {
            if dir_map(dirs).contains_key(n) {
                let i = choose|i: int|
                    0 <= i < dirs.drop_last().len() && dirs.drop_last()[i].display_name@ == n;
                assert(dirs[i].display_name@ == n);
            }
            if exists|i: int| 0 <= i < dirs.len() && dirs[i].display_name@ == n {
                let i = choose|i: int| 0 <= i < dirs.len() && dirs[i].display_name@ == n;
                assert(i < dirs.len() - 1);
                assert(dirs.drop_last()[i].display_name@ == n);
            }
        }
    }
}

proof fn lemma_dir_map_index(dirs: Seq<LibraryDir>, i: int)
    requires
        dir_names_unique(dirs),
        0 <= i < dirs.len(),
    ensures
        dir_map(dirs).contains_key(dirs[i].display_name@),
        dir_map(dirs)[dirs[i].display_name@] == strs_view(dirs[i].clips@),
    decreases dirs.len(),
{
    if i == dirs.len() - 1 {
    } else {
        assert(dir_names_unique(dirs.drop_last())) by {
            assert(forall|x: int, y: int|
                0 <= x < y < dirs.drop_last().len() ==> dirs.drop_last()[x].display_name@
                    != dirs.drop_last()[y].display_name@);
        }
        lemma_dir_map_index(dirs.drop_last(), i);
        assert(dirs.drop_last()[i] == dirs[i]);
        assert(dirs[i].display_name@ != dirs.last().display_name@);
    }
}

proof fn lemma_dir_map_push(dirs: Seq<LibraryDir>, d: LibraryDir)
    ensures
        dir_map(dirs.push(d)) == dir_map(dirs).insert(d.display_name@, strs_view(d.clips@)),
{
    assert(dirs.push(d).drop_last() =~= dirs);
    assert(dirs.push(d).last() == d);
}

proof fn lemma_dir_map_remove(dirs: Seq<LibraryDir>, i: int)
    requires
        dir_names_unique(dirs),
        0 <= i < dirs.len(),
    ensures
        dir_map(dirs.remove(i)) == dir_map(dirs).remove(dirs[i].display_name@),
    decreases dirs.len(),
{
    let n = dirs[i].display_name@;
    if i == dirs.len() - 1 {
        assert(dirs.remove(i) =~= dirs.drop_last());
        lemma_dir_map_contains(dirs.drop_last(), n);
        assert(forall|j: int|
            0 <= j < dirs.drop_last().len() ==> dirs.drop_last()[j].display_name@ != n);
        assert(!dir_map(dirs.drop_last()).contains_key(n));
        assert(dir_map(dirs.drop_last()).insert(n, strs_view(dirs.last().clips@)).remove(n)
            =~= dir_map(dirs.drop_last()));
    } else {
        assert(dir_names_unique(dirs.drop_last())) by {
            assert(forall|x: int, y: int|
                0 <= x < y < dirs.drop_last().len() ==> dirs.drop_last()[x].display_name@
                    != dirs.drop_last()[y].display_name@);
        }
        assert(dirs.remove(i).drop_last() =~= dirs.drop_last().remove(i));
        assert(dirs.remove(i).last() == dirs.last());
        lemma_dir_map_remove(dirs.drop_last(), i);
        assert(dirs.drop_last()[i] == dirs[i]);
        let last_n = dirs.last().display_name@;
        assert(last_n != n);
        assert(dir_map(dirs.drop_last()).remove(n).insert(last_n, strs_view(dirs.last().clips@))
            =~= dir_map(dirs.drop_last()).insert(last_n, strs_view(dirs.last().clips@)).remove(n));
    }
}

/// A clip name occurs in a library's enumeration exactly when it occurs in
/// the set of its entries.
proof fn lemma_strs_view_contains(v: Seq<String>, s: Seq<char>)
    ensures
        strs_view(v).contains(s) <==> str_set(v).contains(s),
{
    if strs_view(v).contains(s) {
        let i = choose|i: int| 0 <= i < strs_view(v).len() && strs_view(v)[i] == s;
        assert(v[i]@ == s);
    }
    if str_set(v).contains(s) {
        let i = choose|i: int| 0 <= i < v.len() && v[i]@ == s;
        assert(strs_view(v)[i] == s);
    }
}

#[verifier::loop_isolation(false)]
fn str_vec_contains(v: &Vec<String>, s: &String) -> (r: bool)
    ensures
        r == str_set(v@).contains(s@),
{
    let n = v.len();
    let mut i: usize = 0;
    while i < n
        invariant
            n == v@.len(),
            i <= n,
            forall|j: int| 0 <= j < i ==> v@[j]@ != s@,
        decreases n - i,
    {
        if v[i] == *s {
            return true;
        }
        i = i + 1;
    }
    false
}

fn str_vec_insert(v: &mut Vec<String>, s: &String)
    requires
        strs_unique(old(v)@),
    ensures
        strs_unique(final(v)@),
        str_set(final(v)@) == str_set(old(v)@).insert(s@),
{
    let ghost pre = v@;
    if str_vec_contains(v, s) {
        proof {
            assert(str_set(pre).insert(s@) =~= str_set(pre));
        }
    } else {
        v.push(s.clone());
        proof {
            assert(forall|j: int| 0 <= j < pre.len() ==> #[trigger] v@[j]@ == pre[j]@);
            assert(v@[pre.len() as int]@ == s@);
            assert(str_set(v@) =~= str_set(pre).insert(s@)) by {
                assert forall|x: Seq<char>|
                    str_set(v@).contains(x) <==> str_set(pre).insert(s@).contains(x) by {
                    if str_set(v@).contains(x) {
                        let i = choose|i: int| 0 <= i < v@.len() && v@[i]@ == x;
                        if i < pre.len() {
                            assert(pre[i]@ == x);
                        }
                    }
                    if str_set(pre).contains(x) {
                        let i = choose|i: int| 0 <= i < pre.len() && pre[i]@ == x;
                        assert(v@[i]@ == x);
                    }
                }
            }
        }
    }
}

#[verifier::loop_isolation(false)]
fn str_vec_remove(v: &mut Vec<String>, s: &String)
    requires
        strs_unique(old(v)@),
    ensures
        strs_unique(final(v)@),
        str_set(final(v)@) == str_set(old(v)@).remove(s@),
{
    let ghost pre = v@;
    let n = v.len();
    let mut i: usize = 0;
    while i < n
        invariant
            n == v@.len(),
            i <= n,
            v@ == pre,
            forall|j: int| 0 <= j < i ==> v@[j]@ != s@,
        decreases n - i,
    {
        if v[i] == *s {
            let _ = v.remove(i);
            proof {
                assert(forall|x: int|
                    0 <= x < v@.len() ==> #[trigger] v@[x] == if x < i {
                        pre[x]
                    } else {
                        pre[x + 1]
                    });
                assert(strs_unique(v@));
                assert(str_set(v@) =~= str_set(pre).remove(s@)) by {
                    assert forall|x: Seq<char>|
                        str_set(v@).contains(x) <==> str_set(pre).remove(s@).contains(x) by {
                        if str_set(v@).contains(x) {
                            let j = choose|j: int| 0 <= j < v@.len() && v@[j]@ == x;
                            if j < i {
                                assert(pre[j]@ == x);
                                assert(pre[j]@ != pre[i as int]@);
                            } else {
                                assert(pre[j + 1]@ == x);
                                assert(pre[j + 1]@ != pre[i as int]@);
                            }
                        }
                        if str_set(pre).remove(s@).contains(x) {
                            let j = choose|j: int| 0 <= j < pre.len() && pre[j]@ == x;
                            assert(j != i);
                            if j < i {
                                assert(v@[j]@ == x);
                            } else {
                                assert(v@[j - 1]@ == x);
                            }
                        }
                    }
                }
            }
            return ;
        }
        i = i + 1;
    }
    proof {
        assert(!str_set(pre).contains(s@));
        assert(str_set(pre).remove(s@) =~= str_set(pre));
    }
}

/// An element-by-element copy of a vector of names.
#[verifier::loop_isolation(false)]
fn clone_strings(v: &Vec<String>) -> (r: Vec<String>)
    ensures
        strs_view(r@) == strs_view(v@),
{
    let n = v.len();
    let mut r: Vec<String> = Vec::new();
    let mut i: usize = 0;
    while i < n
        invariant
            n == v@.len(),
            i <= n,
            r@.len() == i,
            forall|j: int| 0 <= j < i ==> r@[j]@ == v@[j]@,
        decreases n - i,
    {
        r.push(v[i].clone());
        i = i + 1;
    }
    proof {
        assert(strs_view(r@) =~= strs_view(v@));
    }
    r
}

impl AssetStore {
    pub closed spec fn view(&self) -> StoreView {
        StoreView {
            records: record_map(self.records@),
            libraries: dir_map(self.dirs@),
            fallbacks: str_set(self.fallbacks@),
            markers: str_set(self.markers@),
            workspace: ws_set(self.workspace@),
            next_job: self.next_job,
        }
    }

    /// The store's structural well-formedness: every backing vector models
    /// its table, map or set with no duplicated key, and every workspace
    /// file belongs to an already-issued job id.
    pub closed spec fn wf(&self) -> bool {
        &&& record_keys_unique(self.records@)
        &&& dir_names_unique(self.dirs@)
        &&& (forall|i: int|
            0 <= i < self.dirs@.len() ==> strs_unique(#[trigger] self.dirs@[i].clips@))
        &&& strs_unique(self.fallbacks@)
        &&& strs_unique(self.markers@)
        &&& ws_unique(self.workspace@)
        &&& (forall|i: int|
            0 <= i < self.workspace@.len() ==> (#[trigger] self.workspace@[i]).job
                < self.next_job)
    }

    /// An empty store: no records, no libraries, no cached fallbacks, no
    /// markers, an empty workspace.
    pub fn new() -> (s: AssetStore)
        ensures
            s.wf(),
            s@ == (StoreView {
                records: Map::empty(),
                libraries: Map::empty(),
                fallbacks: Set::empty(),
                markers: Set::empty(),
                workspace: Set::empty(),
                next_job: 0,
            }),
    {
        let s = AssetStore {
            records: Vec::new(),
            dirs: Vec::new(),
            fallbacks: Vec::new(),
            markers: Vec::new(),
            workspace: Vec::new(),
            next_job: 0,
        };
        proof {
            assert(s@.libraries =~= Map::<Seq<char>, Seq<Seq<char>>>::empty());
            assert(s@.fallbacks =~= Set::<Seq<char>>::empty());
            assert(s@.markers =~= Set::<Seq<char>>::empty());
            assert(s@.workspace =~= Set::<WorkspaceFile>::empty());
        }
        s
    }

    /// Index of the record for (name, user), if any.
    #[verifier::loop_isolation(false)]
    fn find_record(&self, name: &String, user: u64) -> (r: Option<usize>)
        requires
            self.wf(),
        ensures
            match r {
                Some(i) => i < self.records@.len() && rec_key(self.records@[i as int]) == (
                    name@,
                    user,
                ),
                None => !self@.records.contains_key((name@, user)),
            },
    {
        let n = self.records.len();
        let mut i: usize = 0;
        while i < n
            invariant
                n == self.records@.len(),
                i <= n,
                forall|j: int| 0 <= j < i ==> rec_key(self.records@[j]) != (name@, user),
            decreases n - i,
        {
            let rec = &self.records[i];
            if rec.user_id == user && rec.display_name == *name {
                return Some(i);
            }
            i = i + 1;
        }
        proof {
            lemma_record_map_contains(self.records@, (name@, user));
        }
        None
    }

    /// The clip currently selected for (name, user): `None` when no record
    /// exists or the record's selection is unset.
    pub fn get_active_clip(&self, name: &String, user: u64) -> (r: Option<String>)
        requires
            self.wf(),
        ensures
            opt_str_view(r) == spec_active(self@.records, name@, user),
    {
        match self.find_record(name, user) {
            Some(i) => {
                proof {
                    lemma_record_map_index(self.records@, i as int);
                }
                match &self.records[i].active_file {
                    Some(clip) => Some(clip.clone()),
                    None => None,
                }
            },
            None => None,
        }
    }

    /// The random-mode flag for (name, user), `false` when no record exists.
    pub fn get_random_flag(&self, name: &String, user: u64) -> (r: bool)
        requires
            self.wf(),
        ensures
            r == spec_random_flag(self@.records, name@, user),
    {
        match self.find_record(name, user) {
            Some(i) => {
                proof {
                    lemma_record_map_index(self.records@, i as int);
                }
                self.records[i].random_enabled
            },
            None => false,
        }
    }

    /// Idempotent upsert of the selected clip: creates the record when
    /// absent, otherwise changes only the selection; the random-mode flag is
    /// preserved.
    pub fn set_active(&mut self, name: &String, user: u64, clip: &String)
        requires
            old(self).wf(),
        ensures
            final(self).wf(),
            final(self)@ == (StoreView {
                records: set_active_effect(old(self)@.records, name@, user, clip@),
                ..old(self)@
            }),
    {
        let entry = AnnouncementRecord {
            display_name: name.clone(),
            user_id: user,
            active_file: Some(clip.clone()),
            random_enabled: self.get_random_flag(name, user),
        };
        let ghost pre = self.records@;
        match self.find_record(name, user) {
            Some(i) => {
                proof {
                    lemma_record_map_remove(pre, i as int);
                }
                let _ = self.records.remove(i);
                proof {
                    assert(forall|x: int|
                        0 <= x < self.records@.len() ==> #[trigger] self.records@[x] == if x
                            < i {
                            pre[x]
                        } else {
                            pre[x + 1]
                        });
                    assert(record_keys_unique(self.records@));
                    lemma_record_map_contains(self.records@, (name@, user));
                    assert(forall|j: int|
                        0 <= j < self.records@.len() ==> rec_key(#[trigger] self.records@[j]) != (
                            name@,
                            user,
                        ));
                    lemma_record_map_push(self.records@, entry);
                }
                self.records.push(entry);
                proof {
                    assert(self@.records =~= set_active_effect(
                        record_map(pre),
                        name@,
                        user,
                        clip@,
                    ));
                }
            },
            None => {
                proof {
                    lemma_record_map_contains(self.records@, (name@, user));
                    lemma_record_map_push(self.records@, entry);
                }
                self.records.push(entry);
                proof {
                    assert(self@.records =~= set_active_effect(
                        record_map(pre),
                        name@,
                        user,
                        clip@,
                    ));
                }
            },
        }
    }

    /// Flip the random-mode flag in place; fails when no record exists for
    /// the pair, and then changes nothing.
    pub fn toggle_random(&mut self, name: &String, user: u64) -> (r: Result<(), StoreError>)
        requires
            old(self).wf(),
        ensures
            final(self).wf(),
            match r {
                Ok(_) => old(self)@.records.contains_key((name@, user)) && final(self)@ == (
                StoreView {
                    records: old(self)@.records.insert(
                        (name@, user),
                        RecordEntry {
                            active_file: old(self)@.records[(name@, user)].active_file,
                            random_enabled: !old(self)@.records[(name@, user)].random_enabled,
                        },
                    ),
                    ..old(self)@
                }),
                Err(e) => e == StoreError::UnknownName && !old(self)@.records.contains_key(
                    (name@, user),
                ) && *final(self) == *old(self),
            },
    {
        let ghost pre = self.records@;
        match self.find_record(name, user) {
            Some(i) => {
                proof {
                    lemma_record_map_index(pre, i as int);
                    lemma_record_map_remove(pre, i as int);
                }
                let mut rec = self.records.remove(i);
                rec.random_enabled = !rec.random_enabled;
                proof {
                    assert(forall|x: int|
                        0 <= x < self.records@.len() ==> #[trigger] self.records@[x] == if x
                            < i {
                            pre[x]
                        } else {
                            pre[x + 1]
                        });
                    assert(record_keys_unique(self.records@));
                    lemma_record_map_contains(self.records@, (name@, user));
                    assert(forall|j: int|
                        0 <= j < self.records@.len() ==> rec_key(#[trigger] self.records@[j]) != (
                            name@,
                            user,
                        ));
                    lemma_record_map_push(self.records@, rec);
                }
                self.records.push(rec);
                proof {
                    assert(self@.records =~= record_map(pre).insert(
                        (name@, user),
                        RecordEntry {
                            active_file: record_map(pre)[(name@, user)].active_file,
                            random_enabled: !record_map(pre)[(name@, user)].random_enabled,
                        },
                    ));
                }
                Ok(())
            },
            None => Err(StoreError::UnknownName),
        }
    }

    /// Whether a library directory exists for this display name.
    #[verifier::loop_isolation(false)]
    pub fn has_library(&self, name: &String) -> (r: bool)
        requires
            self.wf(),
        ensures
            r == self@.libraries.contains_key(name@),
    {
        let n = self.dirs.len();
        let mut i: usize = 0;
        while i < n
            invariant
                n == self.dirs@.len(),
                i <= n,
                forall|j: int| 0 <= j < i ==> self.dirs@[j].display_name@ != name@,
            decreases n - i,
        {
            if self.dirs[i].display_name == *name {
                proof {
                    lemma_dir_map_contains(self.dirs@, name@);
                }
                return true;
            }
            i = i + 1;
        }
        proof {
            lemma_dir_map_contains(self.dirs@, name@);
        }
        false
    }

    /// A fresh enumeration of the clips in this display name's library, in
    /// enumeration order; `None` when no library directory exists.
    #[verifier::loop_isolation(false)]
    pub fn list_clip_names(&self, name: &String) -> (r: Option<Vec<String>>)
        requires
            self.wf(),
        ensures
            match r {
                Some(v) => self@.libraries.contains_key(name@) && strs_view(v@)
                    == self@.libraries[name@],
                None => !self@.libraries.contains_key(name@),
            },
    {
        let n = self.dirs.len();
        let mut i: usize = 0;
        while i < n
            invariant
                self.wf(),
                n == self.dirs@.len(),
                i <= n,
                forall|j: int| 0 <= j < i ==> self.dirs@[j].display_name@ != name@,
            decreases n - i,
        {
            if self.dirs[i].display_name == *name {
                proof {
                    lemma_dir_map_index(self.dirs@, i as int);
                }
                return Some(clone_strings(&self.dirs[i].clips));
            }
            i = i + 1;
        }
        proof {
            lemma_dir_map_contains(self.dirs@, name@);
        }
        None
    }

    /// Whether this display name's library holds this clip.
    #[verifier::loop_isolation(false)]
    pub fn library_has_clip(&self, name: &String, clip: &String) -> (r: bool)
        requires
            self.wf(),
        ensures
            r == (self@.libraries.contains_key(name@) && self@.libraries[name@].contains(clip@)),
    {
        let n = self.dirs.len();
        let mut i: usize = 0;
        while i < n
            invariant
                self.wf(),
                n == self.dirs@.len(),
                i <= n,
                forall|j: int| 0 <= j < i ==> self.dirs@[j].display_name@ != name@,
            decreases n - i,
        {
            if self.dirs[i].display_name == *name {
                proof {
                    lemma_dir_map_index(self.dirs@, i as int);
                    lemma_strs_view_contains(self.dirs@[i as int].clips@, clip@);
                }
                return str_vec_contains(&self.dirs[i].clips, clip);
            }
            i = i + 1;
        }
        proof {
            lemma_dir_map_contains(self.dirs@, name@);
        }
        false
    }

    /// Upsert of the selected clip guarded by the library: the selection is
    /// changed only to a clip that exists in the display name's library.
    pub fn set_active_checked(&mut self, name: &String, user: u64, clip: &String) -> (r: Result<
        (),
        StoreError,
    >)
        requires
            old(self).wf(),
        ensures
            final(self).wf(),
            match r {
                Ok(_) => old(self)@.libraries.contains_key(name@)
                    && old(self)@.libraries[name@].contains(clip@) && final(self)@ == (StoreView {
                    records: set_active_effect(old(self)@.records, name@, user, clip@),
                    ..old(self)@
                }),
                Err(e) => e == StoreError::NoSuchClip && !(old(self)@.libraries.contains_key(name@)
                    && old(self)@.libraries[name@].contains(clip@)) && *final(self) == *old(self),
            },
    {
        if self.library_has_clip(name, clip) {
            self.set_active(name, user, clip);
            Ok(())
        } else {
            Err(StoreError::NoSuchClip)
        }
    }

    /// Whether a synthesized fallback asset is cached for this display name.
    pub fn has_fallback(&self, name: &String) -> (r: bool)
        requires
            self.wf(),
        ensures
            r == self@.fallbacks.contains(name@),
    {
        str_vec_contains(&self.fallbacks, name)
    }

    /// Record that a fallback asset now exists for this display name
    /// (idempotent: the cache holds one per name, reused indefinitely).
    pub fn register_fallback(&mut self, name: &String)
        requires
            old(self).wf(),
        ensures
            final(self).wf(),
            final(self)@ == (StoreView {
                fallbacks: old(self)@.fallbacks.insert(name@),
                ..old(self)@
            }),
    {
        str_vec_insert(&mut self.fallbacks, name);
    }

    /// Whether a pending-synthesis marker exists for this display name.
    pub fn has_marker(&self, name: &String) -> (r: bool)
        requires
            self.wf(),
        ensures
            r == self@.markers.contains(name@),
    {
        str_vec_contains(&self.markers, name)
    }

    /// Write the pending-synthesis marker for this display name.
    pub fn add_marker(&mut self, name: &String)
        requires
            old(self).wf(),
        ensures
            final(self).wf(),
            final(self)@ == (StoreView { markers: old(self)@.markers.insert(name@), ..old(self)@ }),
    {
        str_vec_insert(&mut self.markers, name);
    }

    /// Remove the pending-synthesis marker for this display name, if any.
    pub fn remove_marker(&mut self, name: &String)
        requires
            old(self).wf(),
        ensures
            final(self).wf(),
            final(self)@ == (StoreView { markers: old(self)@.markers.remove(name@), ..old(self)@ }),
    {
        str_vec_remove(&mut self.markers, name);
    }

    /// Publish a clip name into this display name's library, creating the
    /// library on first use. Publishing an already-present name replaces the
    /// file's content and leaves the enumeration unchanged.
    #[verifier::loop_isolation(false)]
    pub fn register_clip(&mut self, name: &String, clip: &String)
        requires
            old(self).wf(),
        ensures
            final(self).wf(),
            final(self)@ == (StoreView {
                libraries: lib_add(old(self)@.libraries, name@, clip@),
                ..old(self)@
            }),
    {
        let ghost pre = self.dirs@;
        let n = self.dirs.len();
        let mut i: usize = 0;
        while i < n
            invariant
                *self == *old(self),
                self.wf(),
                self.dirs@ == pre,
                n == pre.len(),
                i <= n,
                forall|j: int| 0 <= j < i ==> pre[j].display_name@ != name@,
            decreases n - i,
        {
            if self.dirs[i].display_name == *name {
                proof {
                    lemma_dir_map_index(pre, i as int);
                    lemma_dir_map_remove(pre, i as int);
                }
                let mut d = self.dirs.remove(i);
                let ghost preclips = d.clips@;
                proof {
                    lemma_strs_view_contains(preclips, clip@);
                }
                if !str_vec_contains(&d.clips, clip) {
                    d.clips.push(clip.clone());
                    proof {
                        assert(forall|j: int|
                            0 <= j < preclips.len() ==> #[trigger] d.clips@[j]@ == preclips[j]@);
                        assert(strs_view(d.clips@) =~= strs_view(preclips).push(clip@));
                        assert(strs_unique(d.clips@));
                    }
                }
                proof {
                    assert(forall|x: int|
                        0 <= x < self.dirs@.len() ==> #[trigger] self.dirs@[x] == if x < i {
                            pre[x]
                        } else {
                            pre[x + 1]
                        });
                    assert(dir_names_unique(self.dirs@));
                    lemma_dir_map_contains(self.dirs@, name@);
                    assert(forall|j: int|
                        0 <= j < self.dirs@.len() ==> (#[trigger] self.dirs@[j]).display_name@
                            != name@);
                    lemma_dir_map_push(self.dirs@, d);
                }
                self.dirs.push(d);
                proof {
                    assert(self@.libraries =~= lib_add(dir_map(pre), name@, clip@));
                }
                return ;
            }
            i = i + 1;
        }
        proof {
            lemma_dir_map_contains(pre, name@);
            assert(!dir_map(pre).contains_key(name@));
        }
        let mut clips: Vec<String> = Vec::new();
        clips.push(clip.clone());
        let d = LibraryDir { display_name: name.clone(), clips };
        proof {
            lemma_dir_map_push(pre, d);
            assert(strs_view(d.clips@) =~= Seq::<Seq<char>>::empty().push(clip@));
        }
        self.dirs.push(d);
        proof {
            assert(self@.libraries =~= lib_add(dir_map(pre), name@, clip@));
        }
    }

    /// A fresh enumeration of the display names that currently have a
    /// library, in enumeration order, each exactly once.
    #[verifier::loop_isolation(false)]
    pub fn list_display_names(&self) -> (r: Vec<String>)
        requires
            self.wf(),
        ensures
            forall|i: int| 0 <= i < r@.len() ==> self@.libraries.contains_key(#[trigger] r@[i]@),
            forall|n: Seq<char>|
                self@.libraries.contains_key(n) ==> exists|i: int|
                    0 <= i < r@.len() && r@[i]@ == n,
            strs_unique(r@),
    {
        let n = self.dirs.len();
        let mut r: Vec<String> = Vec::new();
        let mut i: usize = 0;
        while i < n
            invariant
                i <= n,
                r@.len() == i,
                forall|j: int| 0 <= j < i ==> r@[j]@ == self.dirs@[j].display_name@,
            decreases n - i,
        {
            r.push(self.dirs[i].display_name.clone());
            i = i + 1;
        }
        proof {
            assert forall|k: int| 0 <= k < r@.len() implies self@.libraries.contains_key(
                r@[k]@,
            ) by {
                lemma_dir_map_contains(self.dirs@, r@[k]@);
            }
            assert forall|name: Seq<char>| self@.libraries.contains_key(name) implies exists|k: int|
                0 <= k < r@.len() && r@[k]@ == name by {
                lemma_dir_map_contains(self.dirs@, name);
                let k = choose|k: int|
                    0 <= k < self.dirs@.len() && self.dirs@[k].display_name@ == name;
                assert(r@[k]@ == name);
            }
        }
        r
    }

    /// Whether the processing workspace holds this file.
    #[verifier::loop_isolation(false)]
    pub fn workspace_has(&self, w: WorkspaceFile) -> (r: bool)
        requires
            self.wf(),
        ensures
            r == self@.workspace.contains(w),
    {
        let n = self.workspace.len();
        let mut i: usize = 0;
        while i < n
            invariant
                n == self.workspace@.len(),
                i <= n,
                forall|j: int| 0 <= j < i ==> self.workspace@[j] != w,
            decreases n - i,
        {
            if self.workspace[i] == w {
                return true;
            }
            i = i + 1;
        }
        false
    }

    /// Create one workspace file for an in-flight ingestion attempt.
    pub(crate) fn ws_add(&mut self, w: WorkspaceFile)
        requires
            old(self).wf(),
            !old(self)@.workspace.contains(w),
            w.job < old(self)@.next_job,
        ensures
            final(self).wf(),
            final(self)@ == (StoreView {
                workspace: old(self)@.workspace.insert(w),
                ..old(self)@
            }),
    {
        let ghost pre = self.workspace@;
        self.workspace.push(w);
        proof {
            assert(forall|j: int| 0 <= j < pre.len() ==> #[trigger] self.workspace@[j] == pre[j]);
            assert(self.workspace@[pre.len() as int] == w);
            assert(ws_unique(self.workspace@));
            assert(ws_set(self.workspace@) =~= ws_set(pre).insert(w)) by {
                assert forall|x: WorkspaceFile|
                    ws_set(self.workspace@).contains(x) <==> ws_set(pre).insert(w).contains(
                        x,
                    ) by {
                    if ws_set(self.workspace@).contains(x) {
                        let i = choose|i: int|
                            0 <= i < self.workspace@.len() && self.workspace@[i] == x;
                        if i < pre.len() {
                            assert(pre[i] == x);
                        }
                    }
                    if ws_set(pre).contains(x) {
                        let i = choose|i: int| 0 <= i < pre.len() && pre[i] == x;
                        assert(self.workspace@[i] == x);
                    }
                }
            }
        }
    }

    /// Delete one workspace file, if present (deletions are best-effort on
    /// the real tree; the model removes the entry).
    #[verifier::loop_isolation(false)]
    pub(crate) fn ws_remove(&mut self, w: WorkspaceFile)
        requires
            old(self).wf(),
        ensures
            final(self).wf(),
            final(self)@ == (StoreView {
                workspace: old(self)@.workspace.remove(w),
                ..old(self)@
            }),
    {
        let ghost pre = self.workspace@;
        let n = self.workspace.len();
        let mut i: usize = 0;
        while i < n
            invariant
                *self == *old(self),
                n == self.workspace@.len(),
                i <= n,
                self.workspace@ == pre,
                forall|j: int| 0 <= j < i ==> self.workspace@[j] != w,
            decreases n - i,
        {
            if self.workspace[i] == w {
                let _ = self.workspace.remove(i);
                proof {
                    assert(forall|x: int|
                        0 <= x < self.workspace@.len() ==> #[trigger] self.workspace@[x] == if x
                            < i {
                            pre[x]
                        } else {
                            pre[x + 1]
                        });
                    assert(ws_unique(self.workspace@));
                    assert(ws_set(self.workspace@) =~= ws_set(pre).remove(w)) by {
                        assert forall|x: WorkspaceFile|
                            ws_set(self.workspace@).contains(x) <==> ws_set(pre).remove(
                                w,
                            ).contains(x) by {
                            if ws_set(self.workspace@).contains(x) {
                                let j = choose|j: int|
                                    0 <= j < self.workspace@.len() && self.workspace@[j] == x;
                                if j < i {
                                    assert(pre[j] == x);
                                    assert(pre[j] != pre[i as int]);
                                } else {
                                    assert(pre[j + 1] == x);
                                    assert(pre[j + 1] != pre[i as int]);
                                }
                            }
                            if ws_set(pre).remove(w).contains(x) {
                                let j = choose|j: int| 0 <= j < pre.len() && pre[j] == x;
                                assert(j != i);
                                if j < i {
                                    assert(self.workspace@[j] == x);
                                } else {
                                    assert(self.workspace@[j - 1] == x);
                                }
                            }
                        }
                    }
                }
                return ;
            }
            i = i + 1;
        }
        proof {
            assert(!ws_set(pre).contains(w));
            assert(ws_set(pre).remove(w) =~= ws_set(pre));
        }
    }

    /// How many ingestion job ids have been issued; equivalently, the next
    /// unused id. Callers that start an ingestion check this against the id
    /// space before calling.
    pub fn jobs_issued(&self) -> (r: u64)
        ensures
            r == self@.next_job,
    {
        self.next_job
    }

    /// Issue a fresh ingestion job id: no workspace file carries it, now or
    /// from any earlier attempt.
    pub(crate) fn new_job(&mut self) -> (r: u64)
        requires
            old(self).wf(),
            old(self)@.next_job < u64::MAX,
        ensures
            final(self).wf(),
            r == old(self)@.next_job,
            final(self)@ == (StoreView {
                next_job: (old(self)@.next_job + 1) as u64,
                ..old(self)@
            }),
            forall|w: WorkspaceFile| final(self)@.workspace.contains(w) ==> w.job != r,
    {
        let r = self.next_job;
        self.next_job = self.next_job + 1;
        proof {
            assert forall|w: WorkspaceFile| self@.workspace.contains(w) implies w.job != r by {
                let i = choose|i: int| 0 <= i < self.workspace@.len() && self.workspace@[i] == w;
                assert(self.workspace@[i].job < r);
            }
        }
        r
    }
}

/// Errors of the store operations.
#[derive(Clone, Copy, PartialEq, Eq, Structural, Debug)]
pub enum StoreError {
    /// No record exists for the given (display name, user id) pair.
    UnknownName,
    /// The named clip is not present in the display name's library.
    NoSuchClip,
}

impl StoreError {
    /// A short human-readable description.
    pub fn message(&self) -> (r: &'static str) {
        match self {
            StoreError::UnknownName => "no record exists for this name",
            StoreError::NoSuchClip => "no such clip in this name's library",
        }
    }
}

} // verus!
