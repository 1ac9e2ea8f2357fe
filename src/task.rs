use vstd::prelude::*;

verus! {

/// Where a task stands. `Pending` becomes `Completed` by the user, and
/// `OverDue` once its due instant has passed while it was still pending.
#[derive(Clone, Copy, Debug, PartialEq, Eq, Structural)]
pub enum TaskStatus {
    Completed,
    Pending,
    OverDue,
}

/// One task of the collection. `date` reads `DD MM YYYY` and `time` reads
/// `HH MM`; both stay text because that is how the store keeps them.
#[derive(Debug, PartialEq, Eq)]
pub struct Task {
    pub id: u128,
    pub title: String,
    pub date: String,
    pub time: String,
    pub description: String,
    pub status: TaskStatus,
}

/// A version 7 UUID read as a big-endian integer carries version 7 in
/// bits 76 to 79 and the RFC 4122 variant `0b10` in bits 62 and 63.
pub open spec fn is_uuid_v7(id: u128) -> bool {
    (id >> 76u128) & 0xfu128 == 7u128 && (id >> 62u128) & 0x3u128 == 2u128
}

/// Relies on uuid's `Uuid::now_v7` and `as_u128`: a time-ordered
/// identifier whose version and variant bits are set as in every version 7
/// UUID. The other bits depend on the clock and on random bits.
#[verifier::external_body]
fn fresh_id() -> (r: u128)
    ensures
        is_uuid_v7(r),
{
    uuid::Uuid::now_v7().as_u128()
}

impl Task {
    /// True when every text field is empty and the task is pending.
    pub open spec fn is_blank(self) -> bool {
        &&& self.title@.len() == 0
        &&& self.date@.len() == 0
        &&& self.time@.len() == 0
        &&& self.description@.len() == 0
        &&& self.status == TaskStatus::Pending
    }

    /// A blank pending task with a fresh time-ordered identifier.
    pub fn new() -> (r: Task)
        ensures
            r.is_blank(),
            is_uuid_v7(r.id),
    {
        let id = fresh_id();
        Task::from(id)
    }

    /// A blank pending task carrying `id`.
    pub fn from(id: u128) -> (r: Task)
        ensures
            r.id == id,
            r.is_blank(),
    {
        Task {
            id,
            title: String::new(),
            date: String::new(),
            time: String::new(),
            description: String::new(),
            status: TaskStatus::Pending,
        }
    }
}

impl Clone for Task {
    fn clone(&self) -> (r: Task)
        ensures
            r == *self,
    {
        Task {
            id: self.id,
            title: self.title.clone(),
            date: self.date.clone(),
            time: self.time.clone(),
            description: self.description.clone(),
            status: self.status,
        }
    }
}

} // verus!
