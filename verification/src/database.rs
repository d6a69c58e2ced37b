//! The ledger of one profile: which backups exist, under which ids; and
//! the statements that keep a ledger in a table of a database.

use vstd::prelude::*;
use crate::backup::{Backup, Id, Timestamp};
use crate::error::{BackupError, Error};
use crate::text::chars_of;

verus! {

/// The ids rise strictly from row to row.
pub open spec fn ids_increasing(rows: Seq<Backup>) -> bool {
    forall|i: int, j: int| 0 <= i < j < rows.len() ==> rows[i].id < rows[j].id
}

/// What holds of every ledger: the rows stand in the order of their ids, and
/// every id lies between 1 and the last id that was handed out.
pub open spec fn ledger_ok(rows: Seq<Backup>, last_id: Id) -> bool {
    &&& ids_increasing(rows)
    &&& forall|i: int| 0 <= i < rows.len() ==> 1 <= #[trigger] rows[i].id <= last_id
}

/// Some row has this id.
pub open spec fn has_id(rows: Seq<Backup>, id: Id) -> bool {
    exists|i: int| 0 <= i < rows.len() && #[trigger] rows[i].id == id
}

/// The row with this id, if there is one.
pub open spec fn lookup(rows: Seq<Backup>, id: Id) -> Option<Backup> {
    if has_id(rows, id) {
        Some(rows[choose|i: int| 0 <= i < rows.len() && #[trigger] rows[i].id == id])
    } else {
        None
    }
}

/// The rows other than the one with this id, in their order.
pub open spec fn without_id(rows: Seq<Backup>, id: Id) -> Seq<Backup> {
    rows.filter(|b: Backup| b.id != id)
}

/// No row is more recent than `b`.
pub open spec fn is_latest(rows: Seq<Backup>, b: Backup) -> bool {
    &&& rows.contains(b)
    &&& forall|i: int| 0 <= i < rows.len() ==> !(#[trigger] rows[i]).newer_than(b)
}

/// Removing nothing: the id is not there.
pub proof fn lemma_without_absent(rows: Seq<Backup>, id: Id)
    requires
        !has_id(rows, id),
    ensures
        without_id(rows, id) =~= rows,
    decreases rows.len(),
{
    reveal(Seq::filter);
    if rows.len() > 0 {
        let front = rows.drop_last();
        assert(rows.last() == rows[rows.len() - 1]);
        assert forall|i: int| 0 <= i < front.len() implies front[i].id != id by {
            assert(front[i] == rows[i]);
        }
        lemma_without_absent(front, id);
        assert(rows =~= front.push(rows.last()));
    }
}

/// Removing the row at `p` is removing the row with its id, where ids are
/// unique.
pub proof fn lemma_without_present(rows: Seq<Backup>, p: int)
    requires
        ids_increasing(rows),
        0 <= p < rows.len(),
    ensures
        without_id(rows, rows[p].id) =~= rows.remove(p),
    decreases rows.len(),
{
    reveal(Seq::filter);
    let id = rows[p].id;
    let front = rows.drop_last();
    assert(rows.last() == rows[rows.len() - 1]);
    assert forall|i: int, j: int| 0 <= i < j < front.len() implies front[i].id < front[j].id by {
        assert(front[i] == rows[i] && front[j] == rows[j]);
    }
    if p == rows.len() - 1 {
        assert forall|i: int| 0 <= i < front.len() implies front[i].id != id by {
            assert(front[i] == rows[i]);
        }
        lemma_without_absent(front, id);
    } else {
        assert(front[p] == rows[p]);
        lemma_without_present(front, p);
        assert(rows.remove(p) =~= front.remove(p).push(rows.last()));
    }
}

/// The ledger of one profile.
///
/// Ids are handed out in rising order, starting at 1, and none is handed
/// out twice, whatever has been removed in between.
#[derive(Clone, Debug)]
pub struct BackupTable {
    profile: String,
    rows: Vec<Backup>,
    last_id: Id,
}

impl View for BackupTable {
    type V = Seq<Backup>;

    /// The rows, in the order of their ids.
    closed spec fn view(&self) -> Seq<Backup> {
        self.rows@
    }
}

impl BackupTable {
    /// The name of the profile that the ledger belongs to.
    pub closed spec fn profile_name(&self) -> Seq<char> {
        self.profile@
    }

    /// The last id that was handed out; 0 before the first.
    pub closed spec fn last(&self) -> Id {
        self.last_id
    }

    /// The ledger is in order.
    pub open spec fn wf(&self) -> bool {
        ledger_ok(self@, self.last())
    }

    /// Opens the ledger of a profile that has no backups yet.
    pub fn open(profile: &str) -> (table: BackupTable)
        ensures
            table.wf(),
            table@ =~= Seq::<Backup>::empty(),
            table.last() == 0,
            table.profile_name() == profile@,
    {
        BackupTable { profile: profile.to_owned(), rows: Vec::new(), last_id: 0 }
    }

    /// Takes up a ledger that was stored: its rows and the last id handed
    /// out. `None` where these cannot be a ledger's.
    pub fn from_rows(profile: &str, rows: Vec<Backup>, last_id: Id) -> (r: Option<BackupTable>)
        ensures
            r is Some <==> ledger_ok(rows@, last_id),
            r matches Some(table) ==> {
                &&& table.wf()
                &&& table@ == rows@
                &&& table.last() == last_id
                &&& table.profile_name() == profile@
            },
    {
        let mut i: usize = 0;
        while i < rows.len()
            invariant
                i <= rows.len(),
                forall|k: int| 0 <= k < i ==> 1 <= #[trigger] rows@[k].id <= last_id,
                forall|k: int| 0 < k < i ==> rows@[k - 1].id < #[trigger] rows@[k].id,
            decreases rows.len() - i,
        {
            let id = rows[i].id;
            if id < 1 || id > last_id {
                return None;
            }
            if i > 0 && rows[i - 1].id >= id {
                proof {
                    assert(!(rows@[i - 1].id < rows@[i as int].id));
                }
                return None;
            }
            i += 1;
        }
        proof {
            lemma_neighbours_increasing(rows@);
        }
        Some(BackupTable { profile: profile.to_owned(), rows, last_id })
    }

    /// Returns the name of the profile that the ledger belongs to.
    pub fn profile(&self) -> (name: &str)
        ensures
            name@ == self.profile_name(),
    {
        self.profile.as_str()
    }

    /// Returns the last id that was handed out; 0 before the first.
    pub fn last_id(&self) -> (id: Id)
        ensures
            id == self.last(),
    {
        self.last_id
    }

    /// Records a new backup under the next id.
    ///
    /// Fails, and changes nothing, only when every id has been handed out.
    pub fn insert(&mut self, tag: &str, timestamp: &Timestamp) -> (r: Result<Backup, Error>)
        requires
            old(self).wf(),
        ensures
            final(self).wf(),
            final(self).profile_name() == old(self).profile_name(),
            match r {
                Ok(b) => {
                    &&& old(self).last() < u32::MAX
                    &&& b.id == old(self).last() + 1
                    &&& b.tag@ == tag@
                    &&& b.timestamp == *timestamp
                    &&& final(self)@ == old(self)@.push(b)
                    &&& final(self).last() == b.id
                },
                Err(e) => {
                    &&& old(self).last() == u32::MAX
                    &&& e == Error::BackupError(BackupError::IdsExhausted)
                    &&& final(self)@ == old(self)@
                    &&& final(self).last() == old(self).last()
                },
            },
    {
        if self.last_id == u32::MAX {
            return Err(Error::BackupError(BackupError::IdsExhausted));
        }
        let id: Id = self.last_id + 1;
        let row = Backup::new(id, tag.to_owned(), *timestamp);
        let b = row.duplicate();
        self.rows.push(row);
        self.last_id = id;
        Ok(b)
    }

    /// The place of the row with this id, if there is one.
    fn position(&self, id: Id) -> (r: Option<usize>)
        ensures
            match r {
                Some(p) => p < self@.len() && self@[p as int].id == id,
                None => !has_id(self@, id),
            },
    {
        let mut i: usize = 0;
        while i < self.rows.len()
            invariant
                i <= self.rows.len(),
                forall|k: int| 0 <= k < i ==> self.rows@[k].id != id,
            decreases self.rows.len() - i,
        {
            if self.rows[i].id == id {
                return Some(i);
            }
            i += 1;
        }
        None
    }

    /// Selects the backup with the given id.
    pub fn select_id(&self, id: Id) -> (r: Option<Backup>)
        requires
            self.wf(),
        ensures
            r == lookup(self@, id),
    {
        match self.position(id) {
            Some(p) => {
                proof {
                    lemma_lookup_at(self@, p as int);
                }
                Some(self.rows[p].duplicate())
            },
            None => None,
        }
    }

    /// Retrieves all backups, in the order of their ids.
    pub fn select_all(&self) -> (all: Vec<Backup>)
        ensures
            all@ == self@,
    {
        let mut all: Vec<Backup> = Vec::new();
        let mut i: usize = 0;
        while i < self.rows.len()
            invariant
                i <= self.rows.len(),
                all@ == self.rows@.take(i as int),
            decreases self.rows.len() - i,
        {
            all.push(self.rows[i].duplicate());
            assert(self.rows@.take(i + 1) =~= self.rows@.take(i as int).push(self.rows@[i as int]));
            i += 1;
        }
        assert(self.rows@.take(i as int) =~= self.rows@);
        all
    }

    /// Removes the backup with the given id.
    ///
    /// Fails, and changes nothing, where no backup has that id.
    pub fn remove(&mut self, id: Id) -> (r: Result<(), Error>)
        requires
            old(self).wf(),
        ensures
            final(self).wf(),
            final(self).profile_name() == old(self).profile_name(),
            final(self).last() == old(self).last(),
            final(self)@ == without_id(old(self)@, id),
            match r {
                Ok(_) => has_id(old(self)@, id) && final(self)@.len() + 1 == old(self)@.len(),
                Err(e) => {
                    &&& !has_id(old(self)@, id)
                    &&& e == Error::BackupError(BackupError::NotFound(id))
                    &&& final(self)@ == old(self)@
                },
            },
    {
        match self.position(id) {
            Some(p) => {
                proof {
                    lemma_without_present(self@, p as int);
                }
                let _ = self.rows.remove(p);
                Ok(())
            },
            None => {
                proof {
                    lemma_without_absent(self@, id);
                }
                Err(Error::BackupError(BackupError::NotFound(id)))
            },
        }
    }

    /// The most recent backup: the one with the latest timestamp and, among
    /// those of one instant, the highest id. `None` for an empty ledger.
    pub fn latest(&self) -> (r: Option<Backup>)
        ensures
            r is None <==> self@.len() == 0,
            r matches Some(b) ==> is_latest(self@, b),
    {
        if self.rows.len() == 0 {
            return None;
        }
        let mut best: usize = 0;
        let mut i: usize = 1;
        while i < self.rows.len()
            invariant
                1 <= i <= self.rows.len(),
                best < i,
                forall|k: int| 0 <= k < i ==> !(#[trigger] self.rows@[k]).newer_than(
                    self.rows@[best as int],
                ),
            decreases self.rows.len() - i,
        {
            if self.rows[i].is_newer_than(&self.rows[best]) {
                best = i;
            }
            i += 1;
        }
        let b = self.rows[best].duplicate();
        assert(self@[best as int] == b);
        Some(b)
    }

    /// Drops the whole ledger: no backup is left, and ids start anew.
    pub fn drop(&mut self)
        ensures
            final(self).wf(),
            final(self)@ =~= Seq::<Backup>::empty(),
            final(self).last() == 0,
            final(self).profile_name() == old(self).profile_name(),
    {
        self.rows = Vec::new();
        self.last_id = 0;
    }
}

/// Where ids are unique, looking up the id of a row finds that row.
pub proof fn lemma_lookup_at(rows: Seq<Backup>, p: int)
    requires
        ids_increasing(rows),
        0 <= p < rows.len(),
    ensures
        lookup(rows, rows[p].id) == Some(rows[p]),
{
    let id = rows[p].id;
    let c = choose|i: int| 0 <= i < rows.len() && #[trigger] rows[i].id == id;
    if c < p {
        assert(rows[c].id < rows[p].id);
    } else if p < c {
        assert(rows[p].id < rows[c].id);
    }
}

/// A backup that has just been recorded is found under its id, as it was
/// recorded.
pub proof fn law_insert_then_select(rows: Seq<Backup>, last_id: Id, b: Backup)
    requires
        ledger_ok(rows, last_id),
        b.id == last_id + 1,
    ensures
        ledger_ok(rows.push(b), b.id),
        lookup(rows.push(b), b.id) == Some(b),
{
    let after = rows.push(b);
    assert forall|i: int, j: int| 0 <= i < j < after.len() implies after[i].id < after[j].id by {
        if j < rows.len() {
            assert(after[i] == rows[i] && after[j] == rows[j]);
        } else {
            assert(after[i] == rows[i]);
        }
    }
    assert forall|i: int| 0 <= i < after.len() implies 1 <= #[trigger] after[i].id <= b.id by {
        if i < rows.len() {
            assert(after[i] == rows[i]);
        }
    }
    lemma_lookup_at(after, rows.len() as int);
}

/// A backup that has been removed is no longer found, and every other
/// backup is found as before.
pub proof fn law_remove_then_select(rows: Seq<Backup>, last_id: Id, id: Id)
    requires
        ledger_ok(rows, last_id),
    ensures
        lookup(without_id(rows, id), id) is None,
        forall|other: Id| other != id ==> lookup(without_id(rows, id), other) == lookup(rows, other),
{
    let rest = without_id(rows, id);
    let keep = |b: Backup| b.id != id;
    assert(!has_id(rest, id)) by {
        if has_id(rest, id) {
            let i = choose|i: int| 0 <= i < rest.len() && #[trigger] rest[i].id == id;
            rows.lemma_filter_pred(keep, i);
        }
    }
    lemma_without_keeps_order(rows, id);
    assert forall|other: Id| other != id implies lookup(rest, other) == lookup(rows, other) by {
        if has_id(rows, other) {
            let p = choose|i: int| 0 <= i < rows.len() && #[trigger] rows[i].id == other;
            lemma_lookup_at(rows, p);
            rows.lemma_filter_contains(keep, p);
            let q = choose|q: int| 0 <= q < rest.len() && rest[q] == rows[p];
            lemma_lookup_at(rest, q);
        } else if has_id(rest, other) {
            let q = choose|i: int| 0 <= i < rest.len() && #[trigger] rest[i].id == other;
            assert(rest.contains(rest[q]));
            rows.lemma_filter_contains_rev(keep, rest[q]);
            let p = choose|p: int| 0 <= p < rows.len() && rows[p] == rest[q];
            assert(rows[p].id == other);
        }
    }
}

/// An empty ledger, such as dropping leaves, lists nothing and finds
/// nothing.
pub proof fn law_drop_then_list(rows: Seq<Backup>)
    requires
        rows =~= Seq::<Backup>::empty(),
    ensures
        rows.len() == 0,
        forall|id: Id| lookup(rows, id) is None,
        forall|b: Backup| !is_latest(rows, b),
{
}

/// Removing a row leaves the ids of the others rising.
pub proof fn lemma_without_keeps_order(rows: Seq<Backup>, id: Id)
    requires
        ids_increasing(rows),
    ensures
        ids_increasing(without_id(rows, id)),
{
    if has_id(rows, id) {
        let p = choose|i: int| 0 <= i < rows.len() && #[trigger] rows[i].id == id;
        lemma_without_present(rows, p);
        let rest = rows.remove(p);
        assert forall|x: int, y: int| 0 <= x < y < rest.len() implies rest[x].id < rest[y].id by {
            let x0 = if x < p { x } else { x + 1 };
            let y0 = if y < p { y } else { y + 1 };
            assert(rest[x] == rows[x0] && rest[y] == rows[y0]);
        }
    } else {
        lemma_without_absent(rows, id);
    }
}

/// Where ids are unique, only one row can be the latest.
pub proof fn law_latest_unique(rows: Seq<Backup>, a: Backup, b: Backup)
    requires
        ids_increasing(rows),
        is_latest(rows, a),
        is_latest(rows, b),
    ensures
        a == b,
{
    let i = choose|i: int| 0 <= i < rows.len() && rows[i] == a;
    let j = choose|j: int| 0 <= j < rows.len() && rows[j] == b;
    if i < j {
        assert(rows[i].id < rows[j].id);
        assert(!rows[i].newer_than(b) && !rows[j].newer_than(a));
    } else if j < i {
        assert(rows[j].id < rows[i].id);
        assert(!rows[i].newer_than(b) && !rows[j].newer_than(a));
    }
}

/// Ids that rise from each row to the next rise along the whole ledger.
proof fn lemma_neighbours_increasing(rows: Seq<Backup>)
    requires
        forall|k: int| 0 < k < rows.len() ==> rows[k - 1].id < #[trigger] rows[k].id,
    ensures
        ids_increasing(rows),
{
    assert forall|i: int, j: int| 0 <= i < j < rows.len() implies rows[i].id < rows[j].id by {
        lemma_rises_between(rows, i, j);
    }
}

proof fn lemma_rises_between(rows: Seq<Backup>, i: int, j: int)
    requires
        forall|k: int| 0 < k < rows.len() ==> rows[k - 1].id < #[trigger] rows[k].id,
        0 <= i < j < rows.len(),
    ensures
        rows[i].id < rows[j].id,
    decreases j - i,
{
    if i + 1 < j {
        lemma_rises_between(rows, i, j - 1);
    }
}

/// The statements that keep a ledger in a table of an SQL database, one
/// table for each profile.
#[derive(Clone, Copy, Debug, PartialEq, Eq, Structural)]
pub enum Statement {
    /// Create the table unless it exists. Ids that the table has held are
    /// not handed out again.
    CreateTable,
    /// Insert a row; the parameters are its id, tag and timestamp.
    Insert,
    /// Select the row with the id that is the parameter.
    SelectId,
    /// Select all rows, in the order of their ids.
    SelectAll,
    /// Delete the row with the id that is the parameter.
    Delete,
    /// Drop the table unless it is missing.
    DropTable,
}

/// The text with each double quote written twice.
pub open spec fn doubled(s: Seq<char>) -> Seq<char>
    decreases s.len(),
{
    if s.len() == 0 {
        Seq::empty()
    } else if s.last() == '"' {
        doubled(s.drop_last()).push('"').push('"')
    } else {
        doubled(s.drop_last()).push(s.last())
    }
}

/// The name as an identifier between double quotes, so that no character
/// of the name can end the identifier or be read as SQL.
pub open spec fn quoted(name: Seq<char>) -> Seq<char> {
    seq!['"'] + doubled(name) + seq!['"']
}

/// What a statement says before the name of the table.
pub open spec fn statement_head(kind: Statement) -> Seq<char> {
    match kind {
        Statement::CreateTable => "CREATE TABLE IF NOT EXISTS "@,
        Statement::Insert => "INSERT INTO "@,
        Statement::SelectId => "SELECT id, tag, timestamp FROM "@,
        Statement::SelectAll => "SELECT id, tag, timestamp FROM "@,
        Statement::Delete => "DELETE FROM "@,
        Statement::DropTable => "DROP TABLE IF EXISTS "@,
    }
}

/// What a statement says behind the name of the table.
pub open spec fn statement_tail(kind: Statement) -> Seq<char> {
    match kind {
        Statement::CreateTable =>
            " (id INTEGER PRIMARY KEY AUTOINCREMENT, tag TEXT NOT NULL, timestamp TEXT NOT NULL)"@,
        Statement::Insert => " (id, tag, timestamp) VALUES (?, ?, ?)"@,
        Statement::SelectId => " WHERE id = ?"@,
        Statement::SelectAll => " ORDER BY id"@,
        Statement::Delete => " WHERE id = ?"@,
        Statement::DropTable => Seq::empty(),
    }
}

/// The text of a statement on the table of a profile.
pub open spec fn statement_text(kind: Statement, profile: Seq<char>) -> Seq<char> {
    statement_head(kind) + quoted(profile) + statement_tail(kind)
}

/// Returns the identifier of the table that holds the ledger of a profile:
/// the profile's name between double quotes, each double quote in it
/// written twice.
pub fn table_identifier(profile: &str) -> (r: String)
    ensures
        r@ == quoted(profile@),
{
    proof {
        reveal_strlit("\"");
    }
    let chars = chars_of(profile);
    let mut r = String::from_str("\"");
    let mut start: usize = 0;
    let mut i: usize = 0;
    assert(profile@.take(0) =~= Seq::<char>::empty());
    while i < chars.len()
        invariant
            start <= i <= chars.len(),
            chars@ == profile@,
            "\""@ == seq!['"'],
            r@ == seq!['"'] + doubled(profile@.take(start as int)),
            doubled(profile@.take(i as int)) == doubled(profile@.take(start as int))
                + profile@.subrange(start as int, i as int),
        decreases chars.len() - i,
    {
        proof {
            let next = profile@.take(i + 1);
            assert(next.drop_last() =~= profile@.take(i as int));
            assert(next.last() == profile@[i as int]);
        }
        if chars[i] == '"' {
            r.append(profile.substring_char(start, i + 1));
            r.append("\"");
            start = i + 1;
            assert(r@ =~= seq!['"'] + doubled(profile@.take(start as int)));
            assert(doubled(profile@.take(start as int)) =~= doubled(profile@.take(start as int))
                + profile@.subrange(start as int, start as int));
        } else {
            assert(doubled(profile@.take(i + 1)) =~= doubled(profile@.take(start as int))
                + profile@.subrange(start as int, i + 1));
        }
        i += 1;
    }
    r.append(profile.substring_char(start, i));
    r.append("\"");
    assert(profile@.take(i as int) =~= profile@);
    assert(r@ =~= quoted(profile@));
    r
}

/// Returns the text of a statement on the table of a profile.
pub fn statement(kind: Statement, profile: &str) -> (r: String)
    ensures
        r@ == statement_text(kind, profile@),
{
    let (head, tail) = match kind {
        Statement::CreateTable => (
            "CREATE TABLE IF NOT EXISTS ",
            " (id INTEGER PRIMARY KEY AUTOINCREMENT, tag TEXT NOT NULL, timestamp TEXT NOT NULL)",
        ),
        Statement::Insert => ("INSERT INTO ", " (id, tag, timestamp) VALUES (?, ?, ?)"),
        Statement::SelectId => ("SELECT id, tag, timestamp FROM ", " WHERE id = ?"),
        Statement::SelectAll => ("SELECT id, tag, timestamp FROM ", " ORDER BY id"),
        Statement::Delete => ("DELETE FROM ", " WHERE id = ?"),
        Statement::DropTable => ("DROP TABLE IF EXISTS ", ""),
    };
    proof {
        reveal_strlit("");
    }
    assert(""@ =~= Seq::<char>::empty());
    let mut r = String::from_str(head);
    let name = table_identifier(profile);
    r.append(name.as_str());
    r.append(tail);
    r
}

/// The id that a row of the table stands under, where the table's key is
/// one: `None` for a key that is no id.
pub fn id_from_rowid(rowid: i64) -> (r: Option<Id>)
    ensures
        r == if 1 <= rowid <= u32::MAX {
            Some(rowid as Id)
        } else {
            None
        },
{
    if 1 <= rowid && rowid <= 4294967295 {
        Some(rowid as u32)
    } else {
        None
    }
}

} // verus!
