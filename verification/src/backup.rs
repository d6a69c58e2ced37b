//! Backups: what they are, and what taking, deleting and restoring one
//! does to the ledger and asks of the disk.

use vstd::prelude::*;
use crate::database::{has_id, is_latest, without_id, BackupTable};
use crate::error::{BackupError, Error};
use crate::filesystem::{
    backup_dir, join, join_path, parent, parent_dir, profile_save_dir, Layout,
};
use crate::profile::Profile;
use crate::text::decimal;

verus! {

/// The ordinal of a backup within its profile.
pub type Id = u32;

/// A point in time: whole seconds since the Unix epoch (UTC), and the
/// nanoseconds past that second.
#[derive(Clone, Copy, Debug, PartialEq, Eq, Structural)]
pub struct Timestamp {
    pub secs: i64,
    pub nanos: u32,
}

impl Timestamp {
    /// `self` is strictly earlier than `other`.
    pub open spec fn before(self, other: Timestamp) -> bool {
        self.secs < other.secs || (self.secs == other.secs && self.nanos < other.nanos)
    }

    /// The point in time `nanos` nanoseconds past the second `secs`.
    pub fn new(secs: i64, nanos: u32) -> (t: Timestamp)
        ensures
            t.secs == secs,
            t.nanos == nanos,
    {
        Timestamp { secs, nanos }
    }

    /// Whether `self` is strictly earlier than `other`.
    pub fn is_before(&self, other: &Timestamp) -> (r: bool)
        ensures
            r == self.before(*other),
    {
        self.secs < other.secs || (self.secs == other.secs && self.nanos < other.nanos)
    }
}

/// Lightweight representation of a single backup.
///
/// The id is unique within the profile, not across profiles: two profiles
/// can each have a backup with the same id.
#[derive(Clone, Debug, PartialEq, Eq)]
pub struct Backup {
    /// The backup's id; also the name of its directory.
    pub id: Id,
    /// The backup's tag (reserved for labels; a fixed placeholder for now).
    pub tag: String,
    /// The backup's time of creation.
    pub timestamp: Timestamp,
}

impl Backup {
    /// Creates a new backup representation.
    pub fn new(id: Id, tag: String, timestamp: Timestamp) -> (b: Backup)
        ensures
            b == (Backup { id, tag, timestamp }),
    {
        Backup { id, tag, timestamp }
    }

    /// Returns the backup's id.
    pub fn id(&self) -> (id: Id)
        ensures
            id == self.id,
    {
        self.id
    }

    /// Returns the backup's tag.
    pub fn tag(&self) -> (tag: &str)
        ensures
            tag@ == self.tag@,
    {
        self.tag.as_str()
    }

    /// Returns the time at which the backup was created.
    pub fn timestamp(&self) -> (t: Timestamp)
        ensures
            t == self.timestamp,
    {
        self.timestamp
    }

    /// A copy of this backup.
    pub fn duplicate(&self) -> (b: Backup)
        ensures
            b == *self,
    {
        Backup { id: self.id, tag: self.tag.clone(), timestamp: self.timestamp }
    }

    /// `self` counts as more recent than `other`: it was created later, or
    /// at the same instant under a higher id.
    pub open spec fn newer_than(self, other: Backup) -> bool {
        other.timestamp.before(self.timestamp) || (self.timestamp == other.timestamp && self.id
            > other.id)
    }

    /// Whether `self` counts as more recent than `other`.
    pub fn is_newer_than(&self, other: &Backup) -> (r: bool)
        ensures
            r == self.newer_than(*other),
    {
        other.timestamp.is_before(&self.timestamp) || (self.timestamp.secs == other.timestamp.secs
            && self.timestamp.nanos == other.timestamp.nanos && self.id > other.id)
    }
}

/// One file or directory to copy into a new backup.
#[derive(Clone, Debug, PartialEq, Eq)]
pub struct CopyStep {
    /// Where it is now, below the profile's base directory.
    pub src: String,
    /// Where it goes, below the backup's directory.
    pub dest: String,
}

/// A backup that has been recorded, and what is left to do on disk.
#[derive(Clone, Debug, PartialEq, Eq)]
pub struct BackupPlan {
    /// The new backup, as the ledger holds it.
    pub backup: Backup,
    /// The backup's directory, to be created.
    pub dir: String,
    /// What to copy, in the order of the matched paths.
    pub copies: Vec<CopyStep>,
}

/// What to do on disk for one path.
#[derive(Clone, Debug, PartialEq, Eq)]
pub enum CopyAction {
    /// Create this directory, and those above it that are missing.
    CreateDirs(String),
    /// Create the missing directories down to `parent`, then copy the file
    /// `src` to `dest`, over whatever is there.
    CopyFile { parent: String, src: String, dest: String },
    /// Leave the destination as it is.
    Skip,
}

/// An entry of a backup's directory tree.
#[derive(Clone, Debug, PartialEq, Eq)]
pub struct DirEntry {
    /// Its path, as seen from the backup's directory.
    pub path: String,
    /// Whether it is a directory.
    pub is_dir: bool,
}

/// Which backup to restore, from where and onto what.
#[derive(Clone, Debug, PartialEq, Eq)]
pub struct Restore {
    /// The backup's id.
    pub id: Id,
    /// The backup's directory.
    pub src_dir: String,
    /// The profile's base directory.
    pub dest_dir: String,
}

/// The directory of the backup `id` of a profile.
pub open spec fn backup_dir_of(layout: Layout, profile: Seq<char>, id: Id) -> Seq<char> {
    join(join(join(layout.install_root@, layout.saves_subpath@), profile), decimal(id as nat))
}

/// The action is to create the directory `dir`.
pub open spec fn creates_dirs(action: CopyAction, dir: Seq<char>) -> bool {
    action matches CopyAction::CreateDirs(d) && d@ == dir
}

/// The action is to copy the file `src` to `dest`.
pub open spec fn copies_file(action: CopyAction, src: Seq<char>, dest: Seq<char>) -> bool {
    action matches CopyAction::CopyFile { parent: p, src: s, dest: d } && p@ == parent(dest) && s@
        == src && d@ == dest
}

/// The plan says to copy each matched path from the base directory to the
/// same place below the backup's directory.
pub open spec fn mirrors(copies: Seq<CopyStep>, matched: Seq<String>, base: Seq<char>, dir: Seq<
    char,
>) -> bool {
    &&& copies.len() == matched.len()
    &&& forall|i: int|
        0 <= i < copies.len() ==> (#[trigger] copies[i]).src@ == join(base, matched[i]@)
            && copies[i].dest@ == join(dir, matched[i]@)
}

/// What recording a backup at the time `now` does to the ledger, and what
/// it returns.
pub open spec fn recorded(
    before: BackupTable,
    after: BackupTable,
    profile: Profile,
    layout: Layout,
    matched: Seq<String>,
    now: Timestamp,
    r: Result<BackupPlan, Error>,
) -> bool {
    &&& after.profile_name() == before.profile_name()
    &&& match r {
        Ok(plan) => {
            &&& before.last() < u32::MAX
            &&& plan.backup.id == before.last() + 1
            &&& plan.backup.tag@ == "unused"@
            &&& plan.backup.timestamp == now
            &&& after@ == before@.push(plan.backup)
            &&& after.last() == plan.backup.id
            &&& plan.dir@ == backup_dir_of(layout, before.profile_name(), plan.backup.id)
            &&& mirrors(plan.copies@, matched, profile.base@, plan.dir@)
        },
        Err(e) => {
            &&& before.last() == u32::MAX
            &&& e == Error::BackupError(BackupError::IdsExhausted)
            &&& after@ == before@
            &&& after.last() == before.last()
        },
    }
}

/// `chrono::Utc::now`, taken as whole seconds since the epoch and the
/// nanoseconds past the second, by `DateTime::timestamp` and
/// `DateTime::timestamp_subsec_nanos`. Nothing is claimed of the result: it
/// is whatever the system's clock says. With a clock that stands before
/// 1970, `chrono` panics.
#[verifier::external_body]
fn utc_now() -> (now: Timestamp) {
    let now = chrono::Utc::now();
    Timestamp { secs: now.timestamp(), nanos: now.timestamp_subsec_nanos() }
}

/// Creates a backup of the profile, stamped with the time `now`.
///
/// The backup is entered in the ledger under the next id. What is returned
/// says what to do on disk: the directory to create, and for each matched
/// path, relative to the profile's base directory, from where to where to
/// copy it. Fails, and changes nothing, only when every id has been handed
/// out.
pub fn backup_at(
    table: &mut BackupTable,
    profile: &Profile,
    layout: &Layout,
    matched: &Vec<String>,
    now: &Timestamp,
) -> (r: Result<BackupPlan, Error>)
    requires
        old(table).wf(),
    ensures
        final(table).wf(),
        recorded(*old(table), *final(table), *profile, *layout, matched@, *now, r),
{
    let row = match table.insert("unused", now) {
        Ok(row) => row,
        Err(e) => {
            return Err(e);
        },
    };
    let dir = backup_dir(layout, table.profile(), row.id);
    let mut copies: Vec<CopyStep> = Vec::new();
    let mut i: usize = 0;
    while i < matched.len()
        invariant
            i <= matched.len(),
            mirrors(copies@, matched@.take(i as int), profile.base@, dir@),
        decreases matched.len() - i,
    {
        let rel = matched[i].as_str();
        copies.push(
            CopyStep { src: join_path(profile.base.as_str(), rel), dest: join_path(dir.as_str(), rel) },
        );
        i += 1;
    }
    assert(matched@.take(i as int) =~= matched@);
    Ok(BackupPlan { backup: row, dir, copies })
}

/// Creates a backup of the profile, stamped with the current time.
///
/// As `backup_at`, at whatever time the clock gives.
pub fn backup(table: &mut BackupTable, profile: &Profile, layout: &Layout, matched: &Vec<String>) -> (r:
    Result<BackupPlan, Error>)
    requires
        old(table).wf(),
    ensures
        final(table).wf(),
        exists|now: Timestamp|
            recorded(*old(table), *final(table), *profile, *layout, matched@, now, r),
{
    let now = utc_now();
    let r = backup_at(table, profile, layout, matched, &now);
    assert(recorded(*old(table), *table, *profile, *layout, matched@, now, r));
    r
}

/// Deletes the backup with the given id from the ledger, and returns its
/// directory, which is to be removed with all it holds.
///
/// Fails, and changes nothing, where the profile has no backup of that id.
pub fn delete_one_backup(table: &mut BackupTable, layout: &Layout, id: Id) -> (r: Result<
    String,
    Error,
>)
    requires
        old(table).wf(),
    ensures
        final(table).wf(),
        final(table).profile_name() == old(table).profile_name(),
        final(table).last() == old(table).last(),
        final(table)@ == without_id(old(table)@, id),
        match r {
            Ok(dir) => has_id(old(table)@, id) && dir@ == backup_dir_of(
                *layout,
                old(table).profile_name(),
                id,
            ),
            Err(e) => {
                &&& !has_id(old(table)@, id)
                &&& e == Error::BackupError(BackupError::NotFound(id))
                &&& final(table)@ == old(table)@
            },
        },
{
    match table.remove(id) {
        Ok(_) => Ok(backup_dir(layout, table.profile(), id)),
        Err(e) => Err(e),
    }
}

/// Deletes all backups of the profile from the ledger, and returns the
/// directory that holds them, which is to be removed with all it holds.
pub fn delete_all_backups(table: &mut BackupTable, layout: &Layout) -> (dir: String)
    ensures
        final(table).wf(),
        final(table).profile_name() == old(table).profile_name(),
        final(table)@ =~= Seq::<Backup>::empty(),
        final(table).last() == 0,
        dir@ == join(
            join(layout.install_root@, layout.saves_subpath@),
            old(table).profile_name(),
        ),
{
    table.drop();
    profile_save_dir(layout, table.profile())
}

/// Deletes one backup of the profile, or all of them where no id is given,
/// and returns the directory to remove.
pub fn delete_backup(table: &mut BackupTable, layout: &Layout, id: Option<Id>) -> (r: Result<
    String,
    Error,
>)
    requires
        old(table).wf(),
    ensures
        final(table).wf(),
        final(table).profile_name() == old(table).profile_name(),
        match id {
            Some(one) => {
                &&& final(table)@ == without_id(old(table)@, one)
                &&& final(table).last() == old(table).last()
                &&& match r {
                    Ok(dir) => has_id(old(table)@, one) && dir@ == backup_dir_of(
                        *layout,
                        old(table).profile_name(),
                        one,
                    ),
                    Err(e) => !has_id(old(table)@, one) && e == Error::BackupError(
                        BackupError::NotFound(one),
                    ),
                }
            },
            None => {
                &&& final(table)@ =~= Seq::<Backup>::empty()
                &&& final(table).last() == 0
                &&& r matches Ok(dir) && dir@ == join(
                    join(layout.install_root@, layout.saves_subpath@),
                    old(table).profile_name(),
                )
            },
        },
{
    match id {
        Some(one) => delete_one_backup(table, layout, one),
        None => Ok(delete_all_backups(table, layout)),
    }
}

/// Finds the backup to restore: the one with the given id, or the most
/// recent one where no id is given.
///
/// Fails where the profile has no backup of that id, or none at all.
pub fn restore_backup(table: &BackupTable, profile: &Profile, layout: &Layout, id: Option<Id>) -> (r:
    Result<Restore, Error>)
    requires
        table.wf(),
    ensures
        match r {
            Ok(restore) => {
                &&& match id {
                    Some(one) => restore.id == one && has_id(table@, one),
                    None => exists|b: Backup| is_latest(table@, b) && restore.id == b.id,
                }
                &&& restore.src_dir@ == backup_dir_of(*layout, table.profile_name(), restore.id)
                &&& restore.dest_dir@ == profile.base@
            },
            Err(e) => match id {
                Some(one) => !has_id(table@, one) && e == Error::BackupError(
                    BackupError::NotFound(one),
                ),
                None => table@.len() == 0 && e == Error::BackupError(BackupError::BackupsEmpty),
            },
        },
{
    let found = match id {
        Some(one) => match table.select_id(one) {
            Some(b) => b,
            None => {
                return Err(Error::BackupError(BackupError::NotFound(one)));
            },
        },
        None => match table.latest() {
            Some(b) => b,
            None => {
                return Err(Error::BackupError(BackupError::BackupsEmpty));
            },
        },
    };
    Ok(
        Restore {
            id: found.id,
            src_dir: backup_dir(layout, table.profile(), found.id),
            dest_dir: profile.base.clone(),
        },
    )
}

/// What to do for one path when a backup is made: for a directory, create
/// it at the destination, without what it holds; for a file, copy it,
/// unless the destination exists already.
pub fn copy(src: &str, dest: &str, src_is_dir: bool, dest_exists: bool) -> (action: CopyAction)
    ensures
        src_is_dir ==> creates_dirs(action, dest@),
        !src_is_dir && !dest_exists ==> copies_file(action, src@, dest@),
        !src_is_dir && dest_exists ==> action is Skip,
{
    if src_is_dir {
        CopyAction::CreateDirs(dest.to_owned())
    } else if !dest_exists {
        CopyAction::CopyFile { parent: parent_dir(dest), src: src.to_owned(), dest: dest.to_owned() }
    } else {
        CopyAction::Skip
    }
}

/// What to do to copy a whole directory tree from `src` onto `dest`, given
/// the entries of the tree, each directory before what it holds: create
/// `dest`, then create each directory and copy each file to the same place
/// below `dest`, over whatever is there. Nothing else below `dest` is
/// touched.
pub fn copy_dir_contents(src: &str, dest: &str, entries: &Vec<DirEntry>) -> (actions: Vec<CopyAction>)
    ensures
        actions@.len() == entries@.len() + 1,
        creates_dirs(actions@[0], dest@),
        forall|i: int|
            0 <= i < entries@.len() ==> if (#[trigger] entries@[i]).is_dir {
                creates_dirs(actions@[i + 1], join(dest@, entries@[i].path@))
            } else {
                copies_file(
                    actions@[i + 1],
                    join(src@, entries@[i].path@),
                    join(dest@, entries@[i].path@),
                )
            },
{
    let mut actions: Vec<CopyAction> = Vec::new();
    actions.push(CopyAction::CreateDirs(dest.to_owned()));
    let mut i: usize = 0;
    while i < entries.len()
        invariant
            i <= entries.len(),
            actions@.len() == i + 1,
            creates_dirs(actions@[0], dest@),
            forall|k: int|
                0 <= k < i ==> if (#[trigger] entries@[k]).is_dir {
                    creates_dirs(actions@[k + 1], join(dest@, entries@[k].path@))
                } else {
                    copies_file(
                        actions@[k + 1],
                        join(src@, entries@[k].path@),
                        join(dest@, entries@[k].path@),
                    )
                },
        decreases entries.len() - i,
    {
        let rel = entries[i].path.as_str();
        let to = join_path(dest, rel);
        if entries[i].is_dir {
            actions.push(CopyAction::CreateDirs(to));
        } else {
            let from = join_path(src, rel);
            actions.push(CopyAction::CopyFile { parent: parent_dir(to.as_str()), src: from, dest: to });
        }
        i += 1;
    }
    actions
}

} // verus!
