use crate::table::KeyedTable;
use vstd::prelude::*;

verus! {

#[derive(Debug, Clone, Copy, PartialEq, Eq, Structural)]
pub enum AttachError {
    /// Another bridge holds the session.
    AlreadyAttached,
    /// The session lost its reader and can only be destroyed.
    Damaged,
    /// The reader was missing on a session not marked damaged; it is now marked.
    ReaderMissing,
}

/// Attach bookkeeping and metadata of one terminal session. The reader is
/// present exactly when no bridge holds the session and it is not damaged.
pub struct SessionState {
    attached: bool,
    damaged: bool,
    has_reader: bool,
    created_at: i64,
    created_by: Option<String>,
    last_attached_at: Option<i64>,
    last_attached_by: Option<String>,
    last_activity_at: i64,
}

impl SessionState {
    /// The reader is present exactly when no bridge holds the session and it is
    /// not damaged.
    pub open spec fn wf(&self) -> bool {
        self.spec_has_reader() == (!self.spec_attached() && !self.spec_damaged())
    }

    pub closed spec fn spec_attached(&self) -> bool {
        self.attached
    }

    pub closed spec fn spec_damaged(&self) -> bool {
        self.damaged
    }

    pub closed spec fn spec_has_reader(&self) -> bool {
        self.has_reader
    }

    pub closed spec fn spec_created_by(&self) -> Option<Seq<char>> {
        match self.created_by {
            Some(s) => Some(s@),
            None => None,
        }
    }

    pub closed spec fn spec_last_attached_by(&self) -> Option<Seq<char>> {
        match self.last_attached_by {
            Some(s) => Some(s@),
            None => None,
        }
    }

    pub closed spec fn spec_last_attached_at(&self) -> Option<i64> {
        self.last_attached_at
    }

    pub closed spec fn spec_created_at(&self) -> i64 {
        self.created_at
    }

    pub closed spec fn spec_last_activity_at(&self) -> i64 {
        self.last_activity_at
    }

    /// A fresh session: detached, holding its reader.
    pub fn new(created_by: Option<String>, now: i64) -> (r: SessionState)
        ensures
            r.wf(),
            !r.spec_attached(),
            !r.spec_damaged(),
            r.spec_has_reader(),
            r.spec_created_by() == match created_by {
                Some(s) => Some(s@),
                None => None::<Seq<char>>,
            },
            r.spec_created_at() == now,
            r.spec_last_activity_at() == now,
            r.spec_last_attached_at() is None,
            r.spec_last_attached_by() is None,
    {
        SessionState {
            attached: false,
            damaged: false,
            has_reader: true,
            created_at: now,
            created_by,
            last_attached_at: None,
            last_attached_by: None,
            last_activity_at: now,
        }
    }

    pub fn attached(&self) -> (r: bool)
        ensures
            r == self.spec_attached(),
    {
        self.attached
    }

    pub fn damaged(&self) -> (r: bool)
        ensures
            r == self.spec_damaged(),
    {
        self.damaged
    }

    pub fn created_at(&self) -> (r: i64)
        ensures
            r == self.spec_created_at(),
    {
        self.created_at
    }

    pub fn created_by(&self) -> (r: Option<String>)
        ensures
            match r {
                Some(s) => self.spec_created_by() == Some(s@),
                None => self.spec_created_by() is None,
            },
    {
        self.created_by.clone()
    }

    pub fn last_attached_at(&self) -> (r: Option<i64>)
        ensures
            r == self.spec_last_attached_at(),
    {
        self.last_attached_at
    }

    pub fn last_attached_by(&self) -> (r: Option<String>)
        ensures
            match r {
                Some(s) => self.spec_last_attached_by() == Some(s@),
                None => self.spec_last_attached_by() is None,
            },
    {
        self.last_attached_by.clone()
    }

    pub fn last_activity_at(&self) -> (r: i64)
        ensures
            r == self.spec_last_activity_at(),
    {
        self.last_activity_at
    }

    /// In a well-formed session the reader is present exactly when no bridge
    /// holds it and it is not damaged.
    pub proof fn lemma_reader_invariant(&self)
        requires
            self.wf(),
        ensures
            self.spec_has_reader() == (!self.spec_attached() && !self.spec_damaged()),
    {
    }

    /// What an attach request gets from a session in this state.
    pub open spec fn attach_outcome(&self) -> Result<(), AttachError> {
        if self.spec_attached() {
            Err(AttachError::AlreadyAttached)
        } else if self.spec_damaged() {
            Err(AttachError::Damaged)
        } else if !self.spec_has_reader() {
            Err(AttachError::ReaderMissing)
        } else {
            Ok(())
        }
    }

    /// Hands the session to a bridge for `device` at `now`: on success the reader
    /// is taken and the attach is recorded; a missing reader marks the session
    /// damaged; otherwise nothing changes.
    pub fn begin_attach(&mut self, device: &String, now: i64) -> (r: Result<(), AttachError>)
        ensures
            r == old(self).attach_outcome(),
            old(self).wf() ==> final(self).wf(),
            r is Ok ==> {
                &&& final(self).spec_attached()
                &&& !final(self).spec_has_reader()
                &&& !final(self).spec_damaged()
                &&& final(self).spec_last_attached_by() == Some(device@)
                &&& final(self).spec_last_attached_at() == Some(now)
            },
            r == Err::<(), AttachError>(AttachError::ReaderMissing) ==> final(self).spec_damaged()
                && !final(self).spec_attached() && !final(self).spec_has_reader()
                && final(self).spec_last_attached_by() == old(self).spec_last_attached_by()
                && final(self).spec_last_attached_at() == old(self).spec_last_attached_at(),
            r is Err && r != Err::<(), AttachError>(AttachError::ReaderMissing) ==> *final(self)
                == *old(self),
            final(self).spec_created_by() == old(self).spec_created_by(),
            final(self).spec_created_at() == old(self).spec_created_at(),
            final(self).spec_last_activity_at() == old(self).spec_last_activity_at(),
    {
        if self.attached {
            return Err(AttachError::AlreadyAttached);
        }
        if self.damaged {
            return Err(AttachError::Damaged);
        }
        if !self.has_reader {
            self.damaged = true;
            return Err(AttachError::ReaderMissing);
        }
        self.attached = true;
        self.has_reader = false;
        self.last_attached_by = Some(device.clone());
        self.last_attached_at = Some(now);
        Ok(())
    }

    /// Ends the bridge: the session is detached, and gets a fresh reader when
    /// one could be cloned from the terminal, else is marked damaged.
    pub fn end_attach(&mut self, reader_recovered: bool)
        requires
            old(self).wf(),
            old(self).spec_attached(),
        ensures
            final(self).wf(),
            !final(self).spec_attached(),
            final(self).spec_damaged() == (old(self).spec_damaged() || !reader_recovered),
            final(self).spec_has_reader() == !final(self).spec_damaged(),
            final(self).spec_created_by() == old(self).spec_created_by(),
            final(self).spec_created_at() == old(self).spec_created_at(),
            final(self).spec_last_attached_by() == old(self).spec_last_attached_by(),
            final(self).spec_last_attached_at() == old(self).spec_last_attached_at(),
            final(self).spec_last_activity_at() == old(self).spec_last_activity_at(),
    {
        self.attached = false;
        if reader_recovered && !self.damaged {
            self.has_reader = true;
        } else {
            self.damaged = true;
            self.has_reader = false;
        }
    }

    /// Records input activity at `now`.
    pub fn touch(&mut self, now: i64)
        ensures
            final(self).spec_last_activity_at() == now,
            final(self).spec_attached() == old(self).spec_attached(),
            final(self).spec_damaged() == old(self).spec_damaged(),
            final(self).spec_has_reader() == old(self).spec_has_reader(),
            final(self).spec_created_by() == old(self).spec_created_by(),
            final(self).spec_created_at() == old(self).spec_created_at(),
            final(self).spec_last_attached_by() == old(self).spec_last_attached_by(),
            final(self).spec_last_attached_at() == old(self).spec_last_attached_at(),
    {
        self.last_activity_at = now;
    }

    /// Whether the session counts as alive, given whether its child has exited.
    pub fn is_alive(&self, exited: bool) -> (r: bool)
        ensures
            r == (!exited && !self.spec_damaged()),
    {
        !exited && !self.damaged
    }

    /// Whether the reaper removes the session, given whether its child has exited.
    pub fn should_reap(&self, exited: bool) -> (r: bool)
        ensures
            r == (exited || (self.spec_damaged() && !self.spec_attached())),
    {
        exited || (self.damaged && !self.attached)
    }
}

/// Public metadata of a session, as listed to clients. Times are Unix seconds.
pub struct SessionInfo {
    pub id: String,
    pub alive: bool,
    pub created_at: i64,
    pub shell: String,
    pub attached: bool,
    pub damaged: bool,
    pub created_by_device_id: Option<String>,
    pub last_attached_at: Option<i64>,
    pub last_attached_by: Option<String>,
    pub last_activity_at: i64,
}

fn clone_opt(s: &Option<String>) -> (r: Option<String>)
    ensures
        match (r, *s) {
            (Some(a), Some(b)) => a@ == b@,
            (None, None) => true,
            _ => false,
        },
{
    match s {
        Some(v) => Some(v.clone()),
        None => None,
    }
}

impl SessionState {
    /// The listing entry of this session, given its id, its shell label and
    /// whether its child has exited.
    pub fn info(&self, id: String, shell: String, exited: bool) -> (r: SessionInfo)
        ensures
            r.id@ == id@,
            r.shell@ == shell@,
            r.alive == (!exited && !self.spec_damaged()),
            r.attached == self.spec_attached(),
            r.damaged == self.spec_damaged(),
            r.created_at == self.spec_created_at(),
            r.last_activity_at == self.spec_last_activity_at(),
            r.last_attached_at == self.spec_last_attached_at(),
            match r.created_by_device_id {
                Some(d) => self.spec_created_by() == Some(d@),
                None => self.spec_created_by() is None,
            },
            match r.last_attached_by {
                Some(d) => self.spec_last_attached_by() == Some(d@),
                None => self.spec_last_attached_by() is None,
            },
    {
        SessionInfo {
            id,
            alive: self.is_alive(exited),
            created_at: self.created_at,
            shell,
            attached: self.attached,
            damaged: self.damaged,
            created_by_device_id: clone_opt(&self.created_by),
            last_attached_at: self.last_attached_at,
            last_attached_by: clone_opt(&self.last_attached_by),
            last_activity_at: self.last_activity_at,
        }
    }
}

/// At most one bridge holds a session: a successful attach leaves the session
/// attached (see `begin_attach`), and while it is attached every further attach
/// is refused as already attached and changes nothing.
pub proof fn lemma_second_attach_rejected(attached: SessionState)
    requires
        attached.spec_attached(),
    ensures
        attached.attach_outcome() == Err::<(), AttachError>(AttachError::AlreadyAttached),
{
}

/// The live connection of each authenticated device: at most one per device.
pub struct ConnectionRegistry<C> {
    table: KeyedTable<C>,
}

impl<C> ConnectionRegistry<C> {
    pub closed spec fn wf(&self) -> bool {
        self.table.wf()
    }

    /// Devices with their connections.
    pub closed spec fn view(&self) -> Map<Seq<char>, C> {
        self.table.view()
    }

    pub fn new() -> (r: ConnectionRegistry<C>)
        ensures
            r.wf(),
            r.view() == Map::<Seq<char>, C>::empty(),
    {
        ConnectionRegistry { table: KeyedTable::new() }
    }

    /// Registers `conn` for `device` and hands back the connection it evicts,
    /// which the caller closes as replaced.
    pub fn register_connection(&mut self, device: String, conn: C) -> (r: Option<C>)
        requires
            old(self).wf(),
        ensures
            final(self).wf(),
            final(self).view() == old(self).view().insert(device@, conn),
            r is Some <==> old(self).view().contains_key(device@),
            r is Some ==> r->Some_0 == old(self).view()[device@],
    {
        self.table.insert(device, conn)
    }

    /// Forgets the connection of `device`.
    pub fn unregister_connection(&mut self, device: &String) -> (r: Option<C>)
        requires
            old(self).wf(),
        ensures
            final(self).wf(),
            final(self).view() == old(self).view().remove(device@),
            r is Some <==> old(self).view().contains_key(device@),
    {
        self.table.remove(device)
    }

    /// The devices that hold a connection.
    pub fn connected_device_ids(&self) -> (r: Vec<String>)
        requires
            self.wf(),
        ensures
            r@.len() == self.view().len(),
            forall|d: Seq<char>|
                self.view().contains_key(d) <==> exists|i: int| 0 <= i < r@.len() && #[trigger] r@[i]@ == d,
            forall|i: int, j: int| 0 <= i < j < r@.len() ==> #[trigger] r@[i]@ != #[trigger] r@[j]@,
    {
        self.table.keys()
    }
}

} // verus!
