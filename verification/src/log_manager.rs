//! The log of a worker on its way to the controller: sent while a connection stands, kept back
//! while none does.

use vstd::prelude::*;

use crate::envs::EnvList;
use crate::numbers::decimal;
use crate::numbers::decimal_u64;

verus! {

/// A list of limited length, from which the oldest item goes when a new one has no room.
pub struct RingBuffer<T> {
    items: Vec<T>,
    capacity: usize,
}

/// The items after one more has come.
pub open spec fn pushed<T>(items: Seq<T>, capacity: nat, item: T) -> Seq<T> {
    if capacity == 0 {
        items
    } else if items.len() < capacity {
        items.push(item)
    } else {
        items.drop_first().push(item)
    }
}

impl<T> View for RingBuffer<T> {
    type V = Seq<T>;

    closed spec fn view(&self) -> Seq<T> {
        self.items@
    }
}

impl<T> RingBuffer<T> {
    pub closed spec fn limit(&self) -> nat {
        self.capacity as nat
    }

    /// No more items than there is room for.
    pub open spec fn wf(&self) -> bool {
        self@.len() <= self.limit()
    }

    pub fn new(capacity: usize) -> (r: Self)
        ensures
            r.wf(),
            r@ == Seq::<T>::empty(),
            r.limit() == capacity,
    {
        RingBuffer { items: Vec::new(), capacity }
    }

    pub fn push(&mut self, item: T)
        requires
            old(self).wf(),
        ensures
            final(self).wf(),
            final(self).limit() == old(self).limit(),
            final(self)@ == pushed(old(self)@, old(self).limit(), item),
    {
        if self.capacity == 0 {
            return;
        }
        if self.items.len() >= self.capacity {
            let ghost before = self.items@;
            let _oldest: T = self.items.remove(0);
            assert(self.items@ =~= before.drop_first());
        }
        self.items.push(item);
    }

    /// Takes all the items out, oldest first.
    pub fn pop_all(&mut self) -> (r: Vec<T>)
        requires
            old(self).wf(),
        ensures
            final(self).wf(),
            final(self).limit() == old(self).limit(),
            final(self)@ == Seq::<T>::empty(),
            r@ == old(self)@,
    {
        let mut out: Vec<T> = Vec::new();
        out.append(&mut self.items);
        assert(out@ =~= old(self)@);
        out
    }
}

/// How many messages are kept back.
pub const KEPT_BACK: usize = 5000;

/// The log on its way: whether a connection stands, and what is kept back.
pub struct LogManager<T> {
    connected: bool,
    buffer: RingBuffer<T>,
}

impl<T> LogManager<T> {
    pub closed spec fn is_connected(&self) -> bool {
        self.connected
    }

    /// What is kept back, oldest first.
    pub closed spec fn kept(&self) -> Seq<T> {
        self.buffer@
    }

    pub closed spec fn wf(&self) -> bool {
        self.buffer.wf() && self.buffer.limit() == KEPT_BACK
    }

    pub fn new() -> (r: Self)
        ensures
            r.wf(),
            !r.is_connected(),
            r.kept() == Seq::<T>::empty(),
    {
        LogManager { connected: false, buffer: RingBuffer::new(KEPT_BACK) }
    }

    /// A message of the log: it is handed back to be sent, or else kept back.
    pub fn log(&mut self, message: T) -> (r: Option<T>)
        requires
            old(self).wf(),
        ensures
            final(self).wf(),
            final(self).is_connected() == old(self).is_connected(),
            old(self).is_connected() ==> r == Some(message) && final(self).kept() == old(
                self,
            ).kept(),
            !old(self).is_connected() ==> r is None && final(self).kept() == pushed(
                old(self).kept(),
                KEPT_BACK as nat,
                message,
            ),
    {
        if self.connected {
            Some(message)
        } else {
            self.buffer.push(message);
            None
        }
    }

    /// The connection broke over this message: it is kept back, and so are those after it.
    pub fn send_failed(&mut self, message: T)
        requires
            old(self).wf(),
        ensures
            final(self).wf(),
            !final(self).is_connected(),
            final(self).kept() == pushed(old(self).kept(), KEPT_BACK as nat, message),
    {
        self.connected = false;
        self.buffer.push(message);
    }

    /// A connection stands: what was kept back is handed out to be sent, oldest first.
    pub fn set_tx(&mut self) -> (r: Vec<T>)
        requires
            old(self).wf(),
        ensures
            final(self).wf(),
            final(self).is_connected(),
            final(self).kept() == Seq::<T>::empty(),
            r@ == old(self).kept(),
    {
        self.connected = true;
        self.buffer.pop_all()
    }
}

/// The items after all of `more` have come.
pub open spec fn pushed_all<T>(items: Seq<T>, capacity: nat, more: Seq<T>) -> Seq<T>
    decreases more.len(),
{
    if more.len() == 0 {
        items
    } else {
        pushed(pushed_all(items, capacity, more.drop_last()), capacity, more.last())
    }
}

/// Of the messages that come while no connection stands, the last ones are kept back, in order
/// and without a gap: all of them as long as there is room.
pub proof fn law_kept_back_messages_are_the_latest<T>(capacity: nat, messages: Seq<T>)
    requires
        capacity > 0,
    ensures
        pushed_all(Seq::<T>::empty(), capacity, messages) == (if messages.len() <= capacity {
            messages
        } else {
            messages.skip(messages.len() - capacity)
        }),
    decreases messages.len(),
{
    if messages.len() > 0 {
        let front = messages.drop_last();
        law_kept_back_messages_are_the_latest(capacity, front);
        let before = pushed_all(Seq::<T>::empty(), capacity, front);
        assert(front.push(messages.last()) =~= messages);
        if messages.len() > capacity {
            assert(before.drop_first().push(messages.last()) =~= messages.skip(
                messages.len() - capacity,
            ));
        }
    } else {
        assert(messages =~= Seq::<T>::empty());
    }
}

/// What a line of the worker's own log is filed under.
pub open spec fn filed_event(worker_id: Seq<char>, level: Seq<char>, target: Seq<char>) -> Map<
    Seq<char>,
    Seq<char>,
> {
    map!["worker_id"@ => worker_id, "level"@ => level, "target"@ => target]
}

/// What a line of a job's output is filed under.
pub open spec fn filed_stream(worker_id: Seq<char>, job_id: u64, stream: Seq<char>) -> Map<
    Seq<char>,
    Seq<char>,
> {
    map!["worker_id"@ => worker_id, "job_id"@ => decimal(job_id as nat), "stream"@ => stream]
}

pub fn event_labels(worker_id: &str, level: &str, target: &str) -> (r: EnvList)
    ensures
        r@ == filed_event(worker_id@, level@, target@),
        r@ == map![
            "worker_id"@ => worker_id@,
            "level"@ => level@,
            "target"@ => target@,
        ],
{
    let r: EnvList = EnvList::new().with("worker_id".to_string(), worker_id.to_string()).with(
        "level".to_string(),
        level.to_string(),
    ).with("target".to_string(), target.to_string());
    assert(r@ =~= map![
        "worker_id"@ => worker_id@,
        "level"@ => level@,
        "target"@ => target@,
    ]);
    r
}

/// What a line of a job's output is filed under.
pub fn stream_labels(worker_id: &str, job_id: u64, stream: &str) -> (r: EnvList)
    ensures
        r@ == filed_stream(worker_id@, job_id, stream@),
        r@ == map![
            "worker_id"@ => worker_id@,
            "job_id"@ => decimal(job_id as nat),
            "stream"@ => stream@,
        ],
{
    let r: EnvList = EnvList::new().with("worker_id".to_string(), worker_id.to_string()).with(
        "job_id".to_string(),
        decimal_u64(job_id),
    ).with("stream".to_string(), stream.to_string());
    assert(r@ =~= map![
        "worker_id"@ => worker_id@,
        "job_id"@ => decimal(job_id as nat),
        "stream"@ => stream@,
    ]);
    r
}

/// A line of a job's output is filed under the worker, the job and the stream that it came from, and
/// a line of the worker's own log under the worker, its level and its source.
pub proof fn law_lines_are_filed_where_they_came_from(
    worker_id: Seq<char>,
    job_id: u64,
    stream: Seq<char>,
    level: Seq<char>,
    target: Seq<char>,
)
    ensures
        ({
            let j = filed_stream(worker_id, job_id, stream);
            let e = filed_event(worker_id, level, target);
            &&& j["worker_id"@] == worker_id && e["worker_id"@] == worker_id
            &&& j["job_id"@] == decimal(job_id as nat) && j["stream"@] == stream
            &&& e["level"@] == level && e["target"@] == target
            &&& !e.contains_key("job_id"@) && !j.contains_key("level"@)
        }),
{
    reveal_strlit("worker_id");
    reveal_strlit("job_id");
    reveal_strlit("stream");
    reveal_strlit("level");
    reveal_strlit("target");
    assert("worker_id"@.len() == 9);
    assert("job_id"@.len() == 6);
    assert("stream"@.len() == 6);
    assert("level"@.len() == 5);
    assert("target"@.len() == 6);
    assert("job_id"@[0] != "stream"@[0]);
    assert("job_id"@[0] != "target"@[0]);
    assert("stream"@[0] != "target"@[0]);
}

} // verus!
