use vstd::prelude::*;

verus! {

/// A user-facing task identifier, handed out when a task is submitted.
pub type Uid = usize;

/// An internal task identifier, handed out when a task is built.
pub type Guid = usize;

/// One unit of work: the input bytes, its identifiers, and, once a worker has
/// answered, the bytes it produced.
pub struct Task {
    guid: Guid,
    id: Uid,
    pub result: Option<Vec<u8>>,
    pub data: Vec<u8>,
}

/// What a task holds, as plain values.
pub ghost struct TaskView {
    pub guid: nat,
    pub uid: nat,
    pub data: Seq<u8>,
    pub result: Option<Seq<u8>>,
}

/// The bytes a result holds, if there is one.
pub open spec fn result_view(r: Option<Vec<u8>>) -> Option<Seq<u8>> {
    match r {
        Some(v) => Some(v@),
        None => None,
    }
}

impl View for Task {
    type V = TaskView;

    closed spec fn view(&self) -> TaskView {
        TaskView {
            guid: self.guid as nat,
            uid: self.id as nat,
            data: self.data@,
            result: result_view(self.result),
        }
    }
}

impl Task {
    /// A task that has not run yet.
    pub fn new(data: Vec<u8>, id: Uid, guid: Guid) -> (r: Task)
        ensures
            r@ == (TaskView { guid: guid as nat, uid: id as nat, data: data@, result: None }),
    {
        Task { guid: guid, id: id, result: None, data: data }
    }

    pub fn get_guid(&self) -> (r: Guid)
        ensures
            r == self@.guid,
    {
        self.guid
    }

    pub fn get_uid(&self) -> (r: Uid)
        ensures
            r == self@.uid,
    {
        self.id
    }

    /// The input bytes.
    pub fn data_bytes(&self) -> (r: &Vec<u8>)
        ensures
            r@ == self@.data,
    {
        &self.data
    }

    /// Whether a worker's answer has been recorded.
    pub fn has_result(&self) -> (r: bool)
        ensures
            r == self@.result is Some,
    {
        self.result.is_some()
    }

    /// Records a worker's answer.
    pub fn set_result(&mut self, bytes: Vec<u8>)
        ensures
            final(self)@ == (TaskView { result: Some(bytes@), ..old(self)@ }),
    {
        self.result = Some(bytes);
    }
}

} // verus!
