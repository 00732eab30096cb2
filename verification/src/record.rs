//! The two record types of the tracker: the single active-timer record and
//! the completed intervals that the append-only log holds.
use vstd::prelude::*;

verus! {

/// A field may be stored in a comma-delimited, line-based record, so it must
/// hold neither the delimiter nor a line break.
pub open spec fn field_ok(s: Seq<char>) -> bool {
    forall|i: int| 0 <= i < s.len() ==> s[i] != ',' && s[i] != '\n' && s[i] != '\r'
}

/// A project code or task label accepted by `start`: non-empty and safe to
/// store in a record field.
pub open spec fn valid_label(s: Seq<char>) -> bool {
    s.len() > 0 && field_ok(s)
}

/// The single record behind a running timer. It exists exactly while a timer
/// is running.
pub struct ActiveTimer {
    pub start_time: u64,
    pub project_code: String,
    pub task: String,
}

impl ActiveTimer {
    /// The fields a `start` call is allowed to store.
    pub open spec fn wf(self) -> bool {
        valid_label(self.project_code@) && valid_label(self.task@)
    }
}

/// One finished, logged timer run. Appended by `stop`; never mutated.
pub struct CompletedInterval {
    pub project_code: String,
    pub start_time: u64,
    pub end_time: u64,
    pub duration: u64,
    pub task: String,
}

impl CompletedInterval {
    /// The string fields can sit in one record line.
    pub open spec fn fields_ok(self) -> bool {
        field_ok(self.project_code@) && field_ok(self.task@)
    }

    /// What `stop` establishes: storable fields, ordered timestamps, and the
    /// duration derived from them.
    pub open spec fn wf(self) -> bool {
        &&& self.fields_ok()
        &&& self.start_time <= self.end_time
        &&& self.duration == self.end_time - self.start_time
    }

    /// A field-by-field copy.
    pub fn duplicate(&self) -> (r: Self)
        ensures
            r == *self,
    {
        CompletedInterval {
            project_code: self.project_code.clone(),
            start_time: self.start_time,
            end_time: self.end_time,
            duration: self.duration,
            task: self.task.clone(),
        }
    }
}

/// A malformed row in either record store.
#[derive(Debug)]
pub enum ParseError {
    CorruptRecord,
}

} // verus!
