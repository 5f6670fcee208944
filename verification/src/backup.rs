//! Snapshot backups and hot-swap restore. The engine keeps every snapshot
//! it has taken with the content it had at that moment; restoring swaps
//! the live store for a chosen snapshot's content and re-applies the
//! schema. Enumeration of backup files is a pure transform from directory
//! entries: keep the regular files with the backup extension, most recent
//! first.

use vstd::prelude::*;
use vstd::multiset::Multiset;
use vstd::seq_lib::group_seq_properties;

use crate::calendar::{backup_file_name, spec_backup_file_name, MAX_EPOCH_SECS};
use crate::store::{store_eq, StoreData};
use crate::text::{chars_to_string, chars_vec, push_chars, push_str_chars};

verus! {

/// One directory entry as the file system reports it.
pub struct FsEntry {
    pub name: String,
    pub path: String,
    pub is_file: bool,
    pub size_bytes: u64,
    pub modified_secs: u64,
}

/// One enumerated backup file.
pub struct BackupEntry {
    pub name: String,
    pub path: String,
    pub size_bytes: u64,
    pub modified_secs: u64,
}

/// The value view of a backup entry.
pub open spec fn v_entry(e: BackupEntry) -> (Seq<char>, Seq<char>, u64, u64) {
    (e.name@, e.path@, e.size_bytes, e.modified_secs)
}

/// The value views of backup entries.
pub open spec fn v_entries(s: Seq<BackupEntry>) -> Seq<(Seq<char>, Seq<char>, u64, u64)> {
    s.map_values(|e: BackupEntry| v_entry(e))
}

/// A file name with the backup extension: at least one character of stem,
/// then `.db`.
pub open spec fn spec_has_db_ext(name: Seq<char>) -> bool {
    name.len() >= 4 && name.skip(name.len() - 3) == ".db"@
}

/// Decide whether a file name carries the backup extension.
pub fn has_db_ext(name: &str) -> (r: bool)
    ensures
        r == spec_has_db_ext(name@),
{
    let cs = chars_vec(name);
    if cs.len() < 4 {
        proof {
            reveal_strlit(".db");
        }
        return false;
    }
    let n = cs.len();
    let a = cs[n - 3];
    let b = cs[n - 2];
    let c = cs[n - 1];
    proof {
        reveal_strlit(".db");
        assert(".db"@.len() == 3);
    }
    if a == '.' && b == 'd' && c == 'b' {
        proof {
            assert(name@.skip(n - 3) =~= ".db"@);
        }
        true
    } else {
        proof {
            assert(name@.skip(n - 3).len() == 3);
            if name@.skip(n - 3) == ".db"@ {
                assert(name@.skip(n - 3)[0] == a && name@.skip(n - 3)[1] == b && name@.skip(
                    n - 3,
                )[2] == c);
                assert(false);
            }
        }
        false
    }
}

/// The entries that are regular files with the backup extension, in
/// directory order.
pub open spec fn spec_db_files(l: Seq<FsEntry>) -> Seq<(Seq<char>, Seq<char>, u64, u64)>
    decreases l.len(),
{
    if l.len() == 0 {
        Seq::empty()
    } else {
        let rest = spec_db_files(l.drop_first());
        if l[0].is_file && spec_has_db_ext(l[0].name@) {
            seq![(l[0].name@, l[0].path@, l[0].size_bytes, l[0].modified_secs)] + rest
        } else {
            rest
        }
    }
}

/// Most recent first.
pub open spec fn spec_sorted_desc(s: Seq<(Seq<char>, Seq<char>, u64, u64)>) -> bool {
    forall|i: int, j: int| 0 <= i < j < s.len() ==> (#[trigger] s[i]).3 >= (#[trigger] s[j]).3
}

/// Enumerate the backup files among directory entries: the regular files
/// with the backup extension, sorted by modification time, most recent
/// first; anything else — and an unreadable directory's empty listing —
/// yields fewer rows, never an error.
#[verifier::loop_isolation(false)]
pub fn list_backups(entries: &Vec<FsEntry>) -> (r: Vec<BackupEntry>)
    ensures
        v_entries(r@).to_multiset() == spec_db_files(entries@).to_multiset(),
        spec_sorted_desc(v_entries(r@)),
{
    broadcast use group_seq_properties;

    let mut pool: Vec<BackupEntry> = Vec::new();
    let mut i: usize = 0;
    proof {
        assert(entries@.skip(0) =~= entries@);
        assert(v_entries(pool@) + spec_db_files(entries@) =~= spec_db_files(entries@));
    }
    while i < entries.len()
        invariant
            i <= entries@.len(),
            spec_db_files(entries@) == v_entries(pool@) + spec_db_files(entries@.skip(i as int)),
        decreases entries@.len() - i,
    {
        let ghost rem = entries@.skip(i as int);
        proof {
            assert(rem[0] == entries@[i as int]);
            assert(rem.drop_first() =~= entries@.skip(i as int + 1));
        }
        let e = &entries[i];
        if e.is_file && has_db_ext(e.name.as_str()) {
            let ghost prev = pool@;
            pool.push(
                BackupEntry {
                    name: e.name.clone(),
                    path: e.path.clone(),
                    size_bytes: e.size_bytes,
                    modified_secs: e.modified_secs,
                },
            );
            proof {
                assert(v_entries(pool@) =~= v_entries(prev).push(
                    (e.name@, e.path@, e.size_bytes, e.modified_secs),
                ));
                assert(v_entries(pool@) + spec_db_files(entries@.skip(i as int + 1)) =~= v_entries(
                    prev,
                ) + spec_db_files(rem));
            }
        }
        i = i + 1;
    }
    proof {
        assert(entries@.skip(entries@.len() as int) =~= Seq::<FsEntry>::empty());
        assert(v_entries(pool@) + spec_db_files(entries@.skip(entries@.len() as int)) =~= v_entries(
            pool@,
        ));
    }
    let ghost pool0 = v_entries(pool@);

    let mut out: Vec<BackupEntry> = Vec::new();
    proof {
        assert(v_entries(out@) =~= Seq::<(Seq<char>, Seq<char>, u64, u64)>::empty());
        assert(v_entries(out@).to_multiset().add(v_entries(pool@).to_multiset())
            =~= pool0.to_multiset());
    }
    while pool.len() > 0
        invariant
            v_entries(out@).to_multiset().add(v_entries(pool@).to_multiset())
                == pool0.to_multiset(),
            spec_sorted_desc(v_entries(out@)),
            forall|a: int, b: int|
                0 <= a < v_entries(out@).len() && 0 <= b < v_entries(pool@).len() ==> (
                #[trigger] v_entries(out@)[a]).3 >= (#[trigger] v_entries(pool@)[b]).3,
        decreases pool@.len(),
    {
        let mut mi: usize = 0;
        let mut k: usize = 1;
        while k < pool.len()
            invariant
                mi < k <= pool@.len(),
                forall|j: int|
                    0 <= j < k ==> (#[trigger] pool@[j]).modified_secs
                        <= pool@[mi as int].modified_secs,
            decreases pool@.len() - k,
        {
            if pool[k].modified_secs > pool[mi].modified_secs {
                mi = k;
            }
            k = k + 1;
        }
        let ghost prev_pool = pool@;
        let ghost prev_out = out@;
        let x = pool.remove(mi);
        out.push(x);
        proof {
            assert(v_entries(pool@) =~= v_entries(prev_pool).remove(mi as int));
            assert(v_entries(out@) =~= v_entries(prev_out).push(v_entry(prev_pool[mi as int])));
            assert(v_entries(prev_pool).remove(mi as int).to_multiset() =~= v_entries(
                prev_pool,
            ).to_multiset().remove(v_entry(prev_pool[mi as int])));
            assert(v_entries(prev_out).push(v_entry(prev_pool[mi as int])).to_multiset()
                =~= v_entries(prev_out).to_multiset().insert(v_entry(prev_pool[mi as int])));
            assert(v_entries(out@).to_multiset().add(v_entries(pool@).to_multiset())
                =~= pool0.to_multiset());
            assert(forall|j: int|
                0 <= j < v_entries(pool@).len() ==> (#[trigger] v_entries(pool@)[j]).3
                    <= v_entry(prev_pool[mi as int]).3);
            assert(forall|a: int|
                0 <= a < v_entries(out@).len() ==> (#[trigger] v_entries(out@)[a]).3
                    >= v_entries(out@)[v_entries(out@).len() - 1].3);
        }
    }
    proof {
        assert(v_entries(pool@).to_multiset() =~= Multiset::<
            (Seq<char>, Seq<char>, u64, u64),
        >::empty());
        assert(v_entries(out@).to_multiset() =~= pool0.to_multiset());
    }
    out
}

/// The path of the most recent backup file among directory entries: the
/// regular `.db` file with the greatest modification time, when any
/// exists.
#[verifier::loop_isolation(false)]
pub fn pick_latest_backup(entries: &Vec<FsEntry>) -> (r: Option<String>)
    ensures
        match r {
            Some(p) => exists|i: int|
                0 <= i < entries@.len() && {
                    let e = #[trigger] entries@[i];
                    &&& e.is_file && spec_has_db_ext(e.name@)
                    &&& p@ == e.path@
                    &&& forall|j: int|
                        0 <= j < entries@.len() && (#[trigger] entries@[j]).is_file
                            && spec_has_db_ext(entries@[j].name@) ==> entries@[j].modified_secs
                            <= e.modified_secs
                },
            None => forall|i: int|
                0 <= i < entries@.len() ==> !((#[trigger] entries@[i]).is_file && spec_has_db_ext(
                    entries@[i].name@,
                )),
        },
{
    let mut best: Option<usize> = None;
    let mut i: usize = 0;
    while i < entries.len()
        invariant
            i <= entries@.len(),
            match best {
                Some(b) => b < entries@.len() && entries@[b as int].is_file && spec_has_db_ext(
                    entries@[b as int].name@,
                ) && forall|j: int|
                    0 <= j < i && (#[trigger] entries@[j]).is_file && spec_has_db_ext(
                        entries@[j].name@,
                    ) ==> entries@[j].modified_secs <= entries@[b as int].modified_secs,
                None => forall|j: int|
                    0 <= j < i ==> !((#[trigger] entries@[j]).is_file && spec_has_db_ext(
                        entries@[j].name@,
                    )),
            },
        decreases entries@.len() - i,
    {
        let e = &entries[i];
        if e.is_file && has_db_ext(e.name.as_str()) {
            match best {
                None => {
                    best = Some(i);
                },
                Some(b) => {
                    if e.modified_secs > entries[b].modified_secs {
                        best = Some(i);
                    }
                },
            }
        }
        i = i + 1;
    }
    match best {
        Some(b) => Some(entries[b].path.clone()),
        None => None,
    }
}

/// One snapshot the engine has taken: where it was written, when, and the
/// store content it preserved.
pub struct Snapshot {
    pub name: String,
    pub path: String,
    pub dir: String,
    pub created_secs: u64,
    pub size_bytes: u64,
    pub data: StoreData,
}

/// The live engine: the attachable store, its on-disk location, the
/// default backup directory, and every snapshot taken so far.
pub struct Engine {
    pub store: Option<StoreData>,
    pub db_path: String,
    pub backup_dir: String,
    pub backups: Vec<Snapshot>,
}

impl Engine {
    /// Every attached or preserved store is well-formed.
    pub open spec fn wf(&self) -> bool {
        &&& (self.store matches Some(s) ==> s.wf())
        &&& (forall|i: int|
            0 <= i < self.backups@.len() ==> (#[trigger] self.backups@[i]).data.wf())
    }

    /// A fresh engine around an initialized store.
    pub fn new(db_path: String, backup_dir: String) -> (r: Engine)
        ensures
            r.wf(),
            r.store is Some,
            ({
                let s = r.store->0;
                &&& s.bills@.len() == 0
                &&& s.bill_items@.len() == 0
                &&& s.products@.len() == 0
                &&& s.categories@.len() == 0
                &&& s.next_product_id == 1
                &&& s.next_category_id == 1
                &&& crate::store::spec_setting(s.settings@, "bill_seq"@) == Some("0"@)
                &&& crate::store::spec_setting(s.settings@, "backup_path"@) is None
            }),
            r.backups@.len() == 0,
            r.db_path@ == db_path@,
            r.backup_dir@ == backup_dir@,
    {
        let s = StoreData::init();
        proof {
            reveal_strlit("bill_seq");
            reveal_strlit("discount_rate_bps");
            reveal_strlit("backup_path");
            assert("backup_path"@.len() == 11);
            assert(crate::store::spec_setting(s.settings@, "backup_path"@) is None) by {
                assert(s.settings@[0].key@ != "backup_path"@);
                assert(s.settings@[1].key@ != "backup_path"@);
                assert(s.settings@.drop_first()[0] == s.settings@[1]);
                assert(s.settings@.drop_first().drop_first().len() == 0);
                assert(crate::store::spec_setting(
                    s.settings@.drop_first().drop_first(),
                    "backup_path"@,
                ) is None);
                assert(crate::store::spec_setting(s.settings@.drop_first(), "backup_path"@)
                    is None);
            }
        }
        Engine { store: Some(s), db_path, backup_dir, backups: Vec::new() }
    }

    /// Take a backup: name a file after the current civil time, preserve
    /// the live content under it in the target directory, and hand the
    /// destination path back. The write-ahead checkpoint and the file
    /// copy happen at the file system mirror of this record.
    #[verifier::loop_isolation(false)]
    pub fn backup(&mut self, target_dir: &str, now_secs: u64, db_size: u64) -> (r: String)
        requires
            old(self).wf(),
            old(self).store is Some,
            now_secs <= MAX_EPOCH_SECS,
        ensures
            final(self).wf(),
            final(self).store == old(self).store,
            final(self).db_path == old(self).db_path,
            final(self).backup_dir == old(self).backup_dir,
            final(self).backups@.len() == old(self).backups@.len() + 1,
            final(self).backups@.drop_last() == old(self).backups@,
            ({
                let snap = final(self).backups@.last();
                &&& snap.name@ == spec_backup_file_name(now_secs as nat)
                &&& snap.dir@ == target_dir@
                &&& snap.path@ == target_dir@ + "/"@ + spec_backup_file_name(now_secs as nat)
                &&& snap.created_secs == now_secs
                &&& snap.size_bytes == db_size
                &&& store_eq(&snap.data, &old(self).store->0)
                &&& r@ == snap.path@
            }),
    {
        let fname = backup_file_name(now_secs);
        let mut p = chars_vec(target_dir);
        push_str_chars(&mut p, "/");
        let fc = chars_vec(fname.as_str());
        push_chars(&mut p, &fc);
        let path = chars_to_string(&p);
        let data = match &self.store {
            Some(s) => s.deep_clone(),
            None => StoreData::init(),
        };
        let ghost pre = self.backups@;
        let snap = Snapshot {
            name: fname,
            path: path.clone(),
            dir: String::from_str(target_dir),
            created_secs: now_secs,
            size_bytes: db_size,
            data,
        };
        proof {
            crate::store::lemma_store_eq_wf(&old(self).store->0, &snap.data);
        }
        self.backups.push(snap);
        proof {
            assert(self.backups@.drop_last() =~= pre);
            assert(forall|i: int| 0 <= i < pre.len() ==> self.backups@[i] == pre[i]);
        }
        path
    }

    /// Discard the most recent snapshot record: the caller's mirror of
    /// the backup file could not be written, so the record must not make
    /// a never-written file appear restorable.
    pub fn drop_last_backup(&mut self)
        requires
            old(self).wf(),
            old(self).backups@.len() > 0,
        ensures
            final(self).wf(),
            final(self).backups@ == old(self).backups@.drop_last(),
            final(self).store == old(self).store,
            final(self).db_path == old(self).db_path,
            final(self).backup_dir == old(self).backup_dir,
    {
        let _ = self.backups.pop();
        proof {
            assert(self.backups@ =~= old(self).backups@.drop_last());
        }
    }

    /// Attach restored content as the live store: content loaded back
    /// from a chosen backup file is admitted only after every schema
    /// invariant is re-checked, then the schema is re-applied and the
    /// store attached. Content that fails the check is refused and the
    /// previously attached store stays in place — the engine is never
    /// left permanently detached by a failed restore.
    pub fn attach_restored(&mut self, data: StoreData) -> (ok: bool)
        requires
            old(self).wf(),
        ensures
            final(self).wf(),
            final(self).backups@ == old(self).backups@,
            final(self).db_path == old(self).db_path,
            final(self).backup_dir == old(self).backup_dir,
            ok == data.wf(),
            ok ==> final(self).store is Some && store_eq(&final(self).store->0, &data),
            !ok ==> final(self).store == old(self).store,
    {
        if data.check_wf() {
            let mut d = data;
            d.apply_schema();
            self.store = Some(d);
            true
        } else {
            false
        }
    }
}

/// The backup/restore round trip: a snapshot taken with the live store's
/// content, restored verbatim, leaves the store with exactly the content
/// it had when the backup was taken.
pub proof fn lemma_backup_restore_round_trip(
    live: &StoreData,
    snap: &StoreData,
    restored: &StoreData,
)
    requires
        store_eq(snap, live),
        store_eq(restored, snap),
    ensures
        store_eq(restored, live),
{
}

} // verus!
