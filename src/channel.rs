use crate::content::Content;
use crate::node::NodeId;
use std::marker::PhantomData;
use std::sync::Arc;
use tokio::sync::broadcast;
use tokio::sync::mpsc;
use tokio::sync::Mutex;
use tokio::sync::MutexGuard;
use vstd::prelude::*;

verus! {

#[verifier::external_type_specification]
#[verifier::external_body]
#[verifier::reject_recursive_types(T)]
pub struct ExQueueReceiver<T>(mpsc::Receiver<T>);

#[verifier::external_type_specification]
#[verifier::external_body]
#[verifier::reject_recursive_types(T)]
pub struct ExBroadcastReceiver<T>(broadcast::Receiver<T>);

#[verifier::external_type_specification]
pub struct ExBroadcastRecvError(broadcast::error::RecvError);

#[verifier::external_type_specification]
#[verifier::external_body]
#[verifier::reject_recursive_types(T)]
pub struct ExMutex<T: ?Sized>(Mutex<T>);

#[verifier::external_type_specification]
#[verifier::external_body]
#[verifier::reject_recursive_types(T)]
pub struct ExMutexGuard<'a, T: ?Sized>(MutexGuard<'a, T>);

/// Relies on tokio's `mpsc::Receiver::blocking_recv`: parks the thread until
/// a message arrives (`Some`) or every sender is gone and the queue is empty
/// (`None`). Must not be called from within an asynchronous context.
pub assume_specification<T>[ mpsc::Receiver::<T>::blocking_recv ](r: &mut mpsc::Receiver<T>) -> Option<T>;

/// Relies on tokio's `mpsc::Receiver::close`: refuses further sends while
/// what is queued can still be received.
pub assume_specification<T>[ mpsc::Receiver::<T>::close ](r: &mut mpsc::Receiver<T>);

/// Relies on tokio's `broadcast::Receiver::blocking_recv`: parks the thread
/// until a message arrives, the sender is gone, or this receiver has fallen
/// behind. Must not be called from within an asynchronous context.
pub assume_specification<T: Clone>[ broadcast::Receiver::<T>::blocking_recv ](
    r: &mut broadcast::Receiver<T>,
) -> Result<T, broadcast::error::RecvError>;

/// Relies on tokio's `Mutex::blocking_lock`: parks the thread until the lock
/// is held. Must not be called from within an asynchronous context.
pub assume_specification<T: ?Sized>[ Mutex::<T>::blocking_lock ](m: &Mutex<T>) -> MutexGuard<'_, T>;

/// Relies on `DerefMut` of tokio's `MutexGuard`: the value the held lock
/// protects.
#[verifier::external_body]
fn guarded<'a, 'b>(g: &'a mut MutexGuard<'b, InChannel>) -> (r: &'a mut InChannel) {
    &mut *g
}

/// Relies on `Arc::clone`: a second handle to the same shared endpoint.
#[verifier::external_body]
fn share(c: &Arc<Mutex<InChannel>>) -> (r: Arc<Mutex<InChannel>>)
    ensures
        r == *c,
{
    Arc::clone(c)
}

/// Why a receive failed.
/// - `NoSuchChannel`: no channel is registered for the requested peer.
/// - `Closed`: every sender is gone and nothing is left to receive.
/// - `Lagged(n)`: a broadcast receiver fell behind and `n` messages were
///   dropped on its side; it can receive again.
#[derive(Debug, PartialEq, Eq, Clone, Copy, Structural)]
pub enum RecvErr {
    NoSuchChannel,
    Closed,
    Lagged(u64),
}

/// Whether `r` failed for want of a channel.
pub open spec fn is_missing<R>(r: Result<R, RecvErr>) -> bool {
    r is Err && r->Err_0 is NoSuchChannel
}

/// The result of a receive on a queue, from what the queue handed out:
/// a message, or `Closed` once there is none and no sender is left.
pub fn queue_outcome(received: Option<Content>) -> (r: Result<Content, RecvErr>)
    ensures
        r == match received {
            Some(c) => Ok::<Content, RecvErr>(c),
            None => Err(RecvErr::Closed),
        },
{
    match received {
        Some(c) => Ok(c),
        None => Err(RecvErr::Closed),
    }
}

/// The result of a receive on a broadcast channel, from what the receiver
/// handed out: a message, `Closed`, or `Lagged` with the count of dropped
/// messages.
pub fn broadcast_outcome(received: Result<Content, broadcast::error::RecvError>) -> (r: Result<Content, RecvErr>)
    ensures
        r == match received {
            Ok(c) => Ok::<Content, RecvErr>(c),
            Err(broadcast::error::RecvError::Closed) => Err(RecvErr::Closed),
            Err(broadcast::error::RecvError::Lagged(n)) => Err(RecvErr::Lagged(n)),
        },
{
    match received {
        Ok(c) => Ok(c),
        Err(broadcast::error::RecvError::Closed) => Err(RecvErr::Closed),
        Err(broadcast::error::RecvError::Lagged(n)) => Err(RecvErr::Lagged(n)),
    }
}

/// The result of a typed receive, from the result of the receive: a message
/// is taken out as a `T`, and is `Ok(None)` when it holds another type; an
/// error is passed on as it is.
pub fn typed_outcome<T: Send + Sync + 'static>(received: Result<Content, RecvErr>) -> (r: Result<
    Option<Arc<T>>,
    RecvErr,
>)
    ensures
        received is Err ==> r == Err::<Option<Arc<T>>, RecvErr>(received->Err_0),
        received is Ok ==> r is Ok,
{
    match received {
        Ok(content) => Ok(content.into_inner()),
        Err(e) => Err(e),
    }
}

/// The receiving end of one edge: a queue for a single consumer, or one
/// subscription to a broadcast shared by several consumers.
pub enum InChannel {
    /// Receiver of a bounded queue.
    Mpsc(mpsc::Receiver<Content>),
    /// Receiver of a broadcast.
    Bcst(broadcast::Receiver<Content>),
}

impl InChannel {
    /// Waits for the next message on this channel, parking the thread. Only
    /// a broadcast receiver reports `Lagged`; neither kind reports
    /// `NoSuchChannel`. Must not be called from within an asynchronous
    /// runtime, where tokio panics on a blocking receive.
    pub fn blocking_recv(&mut self) -> (r: Result<Content, RecvErr>)
        ensures
            !is_missing(r),
            *old(self) is Mpsc ==> *final(self) is Mpsc && !(r is Err && r->Err_0 is Lagged),
            *old(self) is Bcst ==> *final(self) is Bcst,
    {
        match self {
            InChannel::Mpsc(receiver) => queue_outcome(receiver.blocking_recv()),
            InChannel::Bcst(receiver) => broadcast_outcome(receiver.blocking_recv()),
        }
    }

    /// Closes this channel. A queue refuses further sends and keeps what is
    /// queued for receiving; a broadcast subscription is left as it is and
    /// ends only when it is dropped, since other subscribers may still read
    /// the broadcast.
    pub fn close(&mut self)
        ensures
            *old(self) is Mpsc <==> *final(self) is Mpsc,
            *old(self) is Bcst ==> *final(self) == *old(self),
    {
        match self {
            InChannel::Mpsc(receiver) => receiver.close(),
            InChannel::Bcst(_) => {},
        }
    }
}


/// A shared endpoint: the lock serializes receives on it.
pub type SharedInChannel = Arc<Mutex<InChannel>>;

/// The result of racing a receive over `entrants` channels, from the first
/// receive that succeeded (`winner`), if any did: `NoSuchChannel` when there
/// was nothing to race, `Closed` when every receive failed.
pub fn race_outcome<R>(entrants: usize, winner: Option<(NodeId, R)>) -> (r: Result<(NodeId, R), RecvErr>)
    ensures
        entrants == 0 ==> r == Err::<(NodeId, R), RecvErr>(RecvErr::NoSuchChannel),
        entrants > 0 && winner is Some ==> r == Ok::<(NodeId, R), RecvErr>(winner->Some_0),
        entrants > 0 && winner is None ==> r == Err::<(NodeId, R), RecvErr>(RecvErr::Closed),
{
    if entrants == 0 {
        Err(RecvErr::NoSuchChannel)
    } else {
        match winner {
            Some(w) => Ok(w),
            None => Err(RecvErr::Closed),
        }
    }
}

/// Whether `v` is what `f` gives for the result of some receive on a
/// registered endpoint.
pub open spec fn mapped_receive<F, T>(f: F, v: T) -> bool
    where
        F: FnMut(Result<Content, RecvErr>) -> T,
{
    exists|x: Result<Content, RecvErr>| !is_missing(x) && #[trigger] f.ensures((x,), v)
}

/// The input channels of one node: its receiving endpoints, keyed by the
/// identifier of the node at the sending end.
pub struct InChannels {
    entries: Vec<(NodeId, SharedInChannel)>,
    channels: Ghost<Map<NodeId, SharedInChannel>>,
}

impl Default for InChannels {
    fn default() -> (r: InChannels)
        ensures
            r@ == Map::<NodeId, SharedInChannel>::empty(),
    {
        InChannels::new()
    }
}

impl View for InChannels {
    type V = Map<NodeId, SharedInChannel>;

    closed spec fn view(&self) -> Map<NodeId, SharedInChannel> {
        self.channels@
    }
}

/// The peers of `s`, in order.
spec fn keys_of(s: Seq<(NodeId, SharedInChannel)>) -> Seq<NodeId> {
    s.map_values(|e: (NodeId, SharedInChannel)| e.0)
}

/// Each peer of `s` has one entry, and the entries are exactly `m`.
spec fn well_keyed(s: Seq<(NodeId, SharedInChannel)>, m: Map<NodeId, SharedInChannel>) -> bool {
    &&& keys_of(s).no_duplicates()
    &&& forall|i: int| 0 <= i < s.len() ==> #[trigger] m.contains_key(s[i].0) && m[s[i].0] == s[i].1
    &&& forall|k: NodeId| #[trigger] m.contains_key(k) ==> keys_of(s).contains(k)
}

impl InChannels {
    /// The peers, in the order in which the set is walked.
    pub closed spec fn ids(self) -> Seq<NodeId> {
        keys_of(self.entries@)
    }

    /// Each peer has one entry, and the entries are exactly the view.
    #[verifier::type_invariant]
    spec fn wf(self) -> bool {
        well_keyed(self.entries@, self.channels@)
    }

    /// A set with no channels.
    pub fn new() -> (r: InChannels)
        ensures
            r.ids() == Seq::<NodeId>::empty(),
            r@ == Map::<NodeId, SharedInChannel>::empty(),
    {
        let entries: Vec<(NodeId, SharedInChannel)> = Vec::new();
        proof {
            assert(keys_of(entries@) =~= Seq::<NodeId>::empty());
        }
        InChannels { entries, channels: Ghost(Map::empty()) }
    }

    /// Where the entry of `id` stands, if there is one.
    fn position(&self, id: &NodeId) -> (r: Option<usize>)
        requires
            self.wf(),
        ensures
            match r {
                Some(i) => i < self.entries@.len() && self.entries@[i as int].0 == *id,
                None => !self@.contains_key(*id) && !self.ids().contains(*id),
            },
    {
        let mut i: usize = 0;
        while i < self.entries.len()
            invariant
                self.wf(),
                i <= self.entries@.len(),
                forall|j: int| 0 <= j < i ==> self.entries@[j].0 != *id,
            decreases self.entries@.len() - i,
        {
            if self.entries[i].0 == *id {
                return Some(i);
            }
            i = i + 1;
        }
        proof {
            assert forall|j: int| 0 <= j < self.ids().len() implies self.ids()[j] != *id by {
                assert(self.ids()[j] == self.entries@[j].0);
            }
        }
        None
    }

    /// Registers `channel` as the endpoint from `node_id`, in place of any
    /// endpoint registered from it before.
    pub fn insert(&mut self, node_id: NodeId, channel: SharedInChannel)
        ensures
            final(self)@ == old(self)@.insert(node_id, channel),
            final(self).ids() == if old(self).ids().contains(node_id) {
                old(self).ids()
            } else {
                old(self).ids().push(node_id)
            },
    {
        proof {
            use_type_invariant(&*self);
        }
        let pos = self.position(&node_id);
        let mut taken = InChannels::new();
        std::mem::swap(self, &mut taken);
        let mut entries = taken.entries;
        let ghost s0 = entries@;
        let ghost ids0 = keys_of(s0);
        let ghost m1 = taken.channels@.insert(node_id, channel);
        match pos {
            Some(i) => {
                entries.set(i, (node_id, channel));
                proof {
                    assert(keys_of(entries@) =~= ids0);
                    assert forall|j: int| 0 <= j < entries@.len() implies #[trigger] m1.contains_key(
                        entries@[j].0,
                    ) && m1[entries@[j].0] == entries@[j].1 by {
                        if j != i {
                            assert(entries@[j] == s0[j]);
                            assert(ids0[j] == s0[j].0 && ids0[i as int] == s0[i as int].0);
                            assert(ids0[j] != ids0[i as int]);
                        }
                    }
                    assert(ids0.contains(node_id)) by {
                        assert(ids0[i as int] == node_id);
                    }
                }
            },
            None => {
                entries.push((node_id, channel));
                proof {
                    let ids1 = keys_of(entries@);
                    assert(ids1 =~= ids0.push(node_id));
                    assert forall|j: int| 0 <= j < entries@.len() implies #[trigger] m1.contains_key(
                        entries@[j].0,
                    ) && m1[entries@[j].0] == entries@[j].1 by {
                        if j < s0.len() {
                            assert(entries@[j] == s0[j]);
                        }
                    }
                    assert forall|k: NodeId| #[trigger] m1.contains_key(k) implies ids1.contains(k) by {
                        if k != node_id {
                            let j = choose|j: int| 0 <= j < ids0.len() && ids0[j] == k;
                            assert(ids1[j] == k);
                        } else {
                            assert(ids1[s0.len() as int] == k);
                        }
                    }
                }
            },
        }
        *self = InChannels { entries, channels: Ghost(m1) };
    }

    /// The endpoint from `id`, if there is one.
    pub fn get(&self, id: &NodeId) -> (r: Option<SharedInChannel>)
        ensures
            r == if self@.contains_key(*id) { Some(self@[*id]) } else { None::<SharedInChannel> },
    {
        proof {
            use_type_invariant(self);
        }
        match self.position(id) {
            Some(i) => Some(share(&self.entries[i].1)),
            None => None,
        }
    }

    /// The endpoint from `id`, or `NoSuchChannel` when there is none.
    pub fn endpoint(&self, id: &NodeId) -> (r: Result<SharedInChannel, RecvErr>)
        ensures
            r == if self@.contains_key(*id) {
                Ok::<SharedInChannel, RecvErr>(self@[*id])
            } else {
                Err(RecvErr::NoSuchChannel)
            },
    {
        match self.get(id) {
            Some(c) => Ok(c),
            None => Err(RecvErr::NoSuchChannel),
        }
    }

    /// The peers of this set, in the order in which it is walked.
    pub fn keys(&self) -> (r: Vec<NodeId>)
        ensures
            r@ == self.ids(),
            r@.no_duplicates(),
            forall|k: NodeId| r@.contains(k) <==> self@.contains_key(k),
    {
        proof {
            use_type_invariant(self);
        }
        let mut r: Vec<NodeId> = Vec::new();
        let mut i: usize = 0;
        while i < self.entries.len()
            invariant
                i <= self.entries@.len(),
                r@ == self.ids().take(i as int),
            decreases self.entries@.len() - i,
        {
            r.push(self.entries[i].0);
            i = i + 1;
            proof {
                assert(r@ =~= self.ids().take(i as int));
            }
        }
        proof {
            assert(r@ =~= self.ids());
            assert forall|k: NodeId| r@.contains(k) <==> self@.contains_key(k) by {
                if r@.contains(k) {
                    let j = choose|j: int| 0 <= j < r@.len() && r@[j] == k;
                    assert(self.entries@[j].0 == k);
                }
            }
        }
        r
    }

    /// Every peer with a handle to its endpoint, in the order in which the
    /// set is walked: what a race or an all-of receive waits on.
    pub fn endpoints(&self) -> (r: Vec<(NodeId, SharedInChannel)>)
        ensures
            r@.len() == self.ids().len(),
            forall|i: int| #![trigger r@[i]] 0 <= i < r@.len() ==> r@[i].0 == self.ids()[i]
                && self@.contains_key(r@[i].0) && r@[i].1 == self@[r@[i].0],
    {
        proof {
            use_type_invariant(self);
        }
        let mut r: Vec<(NodeId, SharedInChannel)> = Vec::new();
        let mut i: usize = 0;
        while i < self.entries.len()
            invariant
                self.wf(),
                i <= self.entries@.len(),
                r@.len() == i,
                forall|j: int| #![trigger r@[j]] 0 <= j < i ==> r@[j].0 == self.ids()[j]
                    && self@.contains_key(r@[j].0) && r@[j].1 == self@[r@[j].0],
            decreases self.entries@.len() - i,
        {
            let entry = &self.entries[i];
            let ghost r0 = r@;
            r.push((entry.0, share(&entry.1)));
            proof {
                assert(self.ids()[i as int] == self.entries@[i as int].0);
                assert forall|j: int| #![trigger r@[j]] 0 <= j <= i implies r@[j].0 == self.ids()[j]
                    && self@.contains_key(r@[j].0) && r@[j].1 == self@[r@[j].0] by {
                    if j < i {
                        assert(r@[j] == r0[j]);
                    }
                }
            }
            i = i + 1;
        }
        r
    }

    /// Waits for the next message from `id`, holding the endpoint's lock
    /// meanwhile. Fails with `NoSuchChannel` exactly when no endpoint from
    /// `id` is registered.
    /// Parks the thread: must not be called from within an asynchronous
    /// runtime, where tokio panics on a blocking lock or receive.
    pub fn blocking_recv_from(&mut self, id: &NodeId) -> (r: Result<Content, RecvErr>)
        ensures
            *final(self) == *old(self),
            is_missing(r) <==> !old(self)@.contains_key(*id),
    {
        match self.get(id) {
            Some(channel) => {
                let mut held = channel.blocking_lock();
                guarded(&mut held).blocking_recv()
            },
            None => Err(RecvErr::NoSuchChannel),
        }
    }

    /// Receives once from every endpoint, one after another in the order of
    /// `ids`, and hands each result to `f`; the values of `f` come back in
    /// that order.
    /// Parks the thread: must not be called from within an asynchronous
    /// runtime, where tokio panics on a blocking lock or receive.
    pub fn blocking_map<F, T>(&mut self, f: F) -> (r: Vec<T>)
        where
            F: FnMut(Result<Content, RecvErr>) -> T,
        requires
            forall|x: Result<Content, RecvErr>| #[trigger] f.requires((x,)),
        ensures
            *final(self) == *old(self),
            r@.len() == old(self).ids().len(),
            forall|i: int| 0 <= i < r@.len() ==> mapped_receive(f, #[trigger] r@[i]),
    {
        proof {
            use_type_invariant(&*self);
        }
        let ghost f0 = f;
        let mut f = f;
        let ids = self.keys();
        let mut r: Vec<T> = Vec::new();
        let mut i: usize = 0;
        while i < ids.len()
            invariant
                self.wf(),
                *self == *old(self),
                ids@ == self.ids(),
                forall|k: NodeId| ids@.contains(k) <==> self@.contains_key(k),
                f == f0,
                forall|x: Result<Content, RecvErr>| #[trigger] f.requires((x,)),
                i <= ids@.len(),
                r@.len() == i,
                forall|j: int| 0 <= j < r@.len() ==> mapped_receive(f0, #[trigger] r@[j]),
            decreases ids@.len() - i,
        {
            assert(ids@.contains(ids@[i as int]));
            let received = self.blocking_recv_from(&ids[i]);
            let ghost arg = received;
            let v = f(received);
            assert(mapped_receive(f0, v)) by {
                assert(!is_missing(arg) && f0.ensures((arg,), v));
            }
            let ghost r0 = r@;
            r.push(v);
            proof {
                assert forall|j: int| 0 <= j < r@.len() implies mapped_receive(f0, #[trigger] r@[j]) by {
                    if j < r0.len() {
                        assert(r@[j] == r0[j]);
                    }
                }
            }
            i = i + 1;
        }
        r
    }

    /// Removes the entry of `id` without closing its endpoint; nothing
    /// happens when there is none. For callers that closed the endpoint
    /// already, under its lock.
    pub fn remove(&mut self, id: &NodeId)
        ensures
            closed_off(*old(self), *id, *final(self)),
    {
        proof {
            use_type_invariant(&*self);
        }
        match self.position(id) {
            Some(i) => {
                let mut taken = InChannels::new();
                std::mem::swap(self, &mut taken);
                let mut entries = taken.entries;
                let ghost s0 = entries@;
                let ghost ids0 = keys_of(s0);
                let ghost m1 = taken.channels@.remove(*id);
                entries.remove(i);
                proof {
                    let s = entries@;
                    let ids1 = keys_of(s);
                    assert(ids1 =~= ids0.remove(i as int));
                    assert forall|j: int| 0 <= j < s.len() implies #[trigger] m1.contains_key(s[j].0)
                        && m1[s[j].0] == s[j].1 by {
                        let k = if j < i { j } else { j + 1 };
                        assert(s[j] == s0[k]);
                        assert(ids0[k] == s0[k].0 && ids0[i as int] == s0[i as int].0);
                    }
                    assert forall|k: NodeId| #[trigger] m1.contains_key(k) implies ids1.contains(k) by {
                        let j = choose|j: int| 0 <= j < ids0.len() && ids0[j] == k;
                        assert(ids0[i as int] == s0[i as int].0);
                        if j < i {
                            assert(ids1[j] == k);
                        } else {
                            assert(ids1[j - 1] == k);
                        }
                    }
                }
                *self = InChannels { entries, channels: Ghost(m1) };
            },
            None => {
                proof {
                    assert(self@.remove(*id) =~= self@);
                }
            },
        }
    }

    /// Closes the endpoint from `id` and removes it from the set; nothing
    /// happens when there is none.
    /// Parks the thread: must not be called from within an asynchronous
    /// runtime, where tokio panics on a blocking lock or receive.
    pub fn close(&mut self, id: &NodeId)
        ensures
            closed_off(*old(self), *id, *final(self)),
    {
        if let Some(channel) = self.get(id) {
            let mut held = channel.blocking_lock();
            guarded(&mut held).close();
        }
        self.remove(id);
    }

    /// Closes every endpoint, at teardown; the entries stay.
    /// Parks the thread: must not be called from within an asynchronous
    /// runtime, where tokio panics on a blocking lock or receive.
    pub fn close_all(&mut self)
        ensures
            *final(self) == *old(self),
    {
        let mut i: usize = 0;
        while i < self.entries.len()
            invariant
                *self == *old(self),
            decreases self.entries@.len() - i,
        {
            let mut held = self.entries[i].1.blocking_lock();
            guarded(&mut held).close();
            i = i + 1;
        }
    }
}

/// What closing `id` does to a set: its endpoint is gone and every other
/// entry stays.
pub open spec fn closed_off(before: InChannels, id: NodeId, after: InChannels) -> bool {
    after@ == before@.remove(id)
}

/// Once `id` is closed, the set has no endpoint from it, so a receive from
/// it fails with `NoSuchChannel`, and closing it again changes nothing.
pub proof fn lemma_closed_channel_is_gone(before: InChannels, id: NodeId, after: InChannels, again: InChannels)
    requires
        closed_off(before, id, after),
        closed_off(after, id, again),
    ensures
        !after@.contains_key(id),
        again@ == after@,
{
    assert(again@ =~= after@);
}


/// Whether `v` is what `f` gives for the result of some typed receive on a
/// registered endpoint.
pub open spec fn mapped_typed_receive<T, F, U>(f: F, v: U) -> bool
    where
        F: FnMut(Result<Option<Arc<T>>, RecvErr>) -> U,
{
    exists|x: Result<Option<Arc<T>>, RecvErr>| !is_missing(x) && #[trigger] f.ensures((x,), v)
}

/// Input channels whose messages are all expected to hold a `T`: the same
/// endpoints as [`InChannels`], with each message taken out as a `T` on
/// receipt. A message that holds another type is received as `None`.
pub struct TypedInChannels<T: Send + Sync + 'static> {
    channels: InChannels,
    marker: PhantomData<T>,
}

impl<T: Send + Sync + 'static> Default for TypedInChannels<T> {
    fn default() -> (r: TypedInChannels<T>)
        ensures
            r@ == Map::<NodeId, SharedInChannel>::empty(),
    {
        TypedInChannels::new()
    }
}

impl<T: Send + Sync + 'static> View for TypedInChannels<T> {
    type V = Map<NodeId, SharedInChannel>;

    closed spec fn view(&self) -> Map<NodeId, SharedInChannel> {
        self.channels@
    }
}

impl<T: Send + Sync + 'static> TypedInChannels<T> {
    /// The peers, in the order in which the set is walked.
    pub closed spec fn ids(self) -> Seq<NodeId> {
        self.channels.ids()
    }

    /// The untyped set underneath.
    pub closed spec fn untyped(self) -> InChannels {
        self.channels
    }

    /// A set with no channels.
    pub fn new() -> (r: TypedInChannels<T>)
        ensures
            r.ids() == Seq::<NodeId>::empty(),
            r@ == Map::<NodeId, SharedInChannel>::empty(),
    {
        TypedInChannels { channels: InChannels::new(), marker: PhantomData }
    }

    /// Views `channels` as carrying messages of type `T`.
    pub fn from_untyped(channels: InChannels) -> (r: TypedInChannels<T>)
        ensures
            r.untyped() == channels,
            r@ == channels@,
            r.ids() == channels.ids(),
    {
        TypedInChannels { channels, marker: PhantomData }
    }

    /// Registers `channel` as the endpoint from `node_id`, in place of any
    /// endpoint registered from it before.
    pub fn insert(&mut self, node_id: NodeId, channel: SharedInChannel)
        ensures
            final(self)@ == old(self)@.insert(node_id, channel),
            final(self).ids() == if old(self).ids().contains(node_id) {
                old(self).ids()
            } else {
                old(self).ids().push(node_id)
            },
    {
        self.channels.insert(node_id, channel);
    }

    /// The endpoint from `id`, if there is one.
    pub fn get(&self, id: &NodeId) -> (r: Option<SharedInChannel>)
        ensures
            r == if self@.contains_key(*id) { Some(self@[*id]) } else { None::<SharedInChannel> },
    {
        self.channels.get(id)
    }

    /// The peers of this set, in the order in which it is walked.
    pub fn keys(&self) -> (r: Vec<NodeId>)
        ensures
            r@ == self.ids(),
            r@.no_duplicates(),
            forall|k: NodeId| r@.contains(k) <==> self@.contains_key(k),
    {
        self.channels.keys()
    }

    /// The endpoint from `id`, or `NoSuchChannel` when there is none.
    pub fn endpoint(&self, id: &NodeId) -> (r: Result<SharedInChannel, RecvErr>)
        ensures
            r == if self@.contains_key(*id) {
                Ok::<SharedInChannel, RecvErr>(self@[*id])
            } else {
                Err(RecvErr::NoSuchChannel)
            },
    {
        self.channels.endpoint(id)
    }

    /// Every peer with a handle to its endpoint, in the order in which the
    /// set is walked.
    pub fn endpoints(&self) -> (r: Vec<(NodeId, SharedInChannel)>)
        ensures
            r@.len() == self.ids().len(),
            forall|i: int| #![trigger r@[i]] 0 <= i < r@.len() ==> r@[i].0 == self.ids()[i]
                && self@.contains_key(r@[i].0) && r@[i].1 == self@[r@[i].0],
    {
        self.channels.endpoints()
    }

    /// Waits for the next message from `id` and takes it out as a `T`:
    /// `Ok(None)` when it holds another type. Fails with `NoSuchChannel`
    /// exactly when no endpoint from `id` is registered.
    /// Parks the thread: must not be called from within an asynchronous
    /// runtime, where tokio panics on a blocking lock or receive.
    pub fn blocking_recv_from(&mut self, id: &NodeId) -> (r: Result<Option<Arc<T>>, RecvErr>)
        ensures
            *final(self) == *old(self),
            is_missing(r) <==> !old(self)@.contains_key(*id),
    {
        typed_outcome(self.channels.blocking_recv_from(id))
    }

    /// Receives once from every endpoint, one after another in the order of
    /// `ids`, and hands each typed result to `f`; the values of `f` come back
    /// in that order.
    /// Parks the thread: must not be called from within an asynchronous
    /// runtime, where tokio panics on a blocking lock or receive.
    pub fn blocking_map<F, U>(&mut self, f: F) -> (r: Vec<U>)
        where
            F: FnMut(Result<Option<Arc<T>>, RecvErr>) -> U,
        requires
            forall|x: Result<Option<Arc<T>>, RecvErr>| #[trigger] f.requires((x,)),
        ensures
            *final(self) == *old(self),
            r@.len() == old(self).ids().len(),
            forall|i: int| 0 <= i < r@.len() ==> mapped_typed_receive::<T, F, U>(f, #[trigger] r@[i]),
    {
        let ghost f0 = f;
        let mut f = f;
        let ids = self.keys();
        let mut r: Vec<U> = Vec::new();
        let mut i: usize = 0;
        while i < ids.len()
            invariant
                *self == *old(self),
                ids@ == self.ids(),
                forall|k: NodeId| ids@.contains(k) <==> self@.contains_key(k),
                f == f0,
                forall|x: Result<Option<Arc<T>>, RecvErr>| #[trigger] f.requires((x,)),
                i <= ids@.len(),
                r@.len() == i,
                forall|j: int| 0 <= j < r@.len() ==> mapped_typed_receive::<T, F, U>(f0, #[trigger] r@[j]),
            decreases ids@.len() - i,
        {
            assert(ids@.contains(ids@[i as int]));
            let received = self.blocking_recv_from(&ids[i]);
            let ghost arg = received;
            let v = f(received);
            assert(mapped_typed_receive::<T, F, U>(f0, v)) by {
                assert(!is_missing(arg) && f0.ensures((arg,), v));
            }
            let ghost r0 = r@;
            r.push(v);
            proof {
                assert forall|j: int| 0 <= j < r@.len() implies mapped_typed_receive::<T, F, U>(
                    f0,
                    #[trigger] r@[j],
                ) by {
                    if j < r0.len() {
                        assert(r@[j] == r0[j]);
                    }
                }
            }
            i = i + 1;
        }
        r
    }

    /// Removes the entry of `id` without closing its endpoint; nothing
    /// happens when there is none.
    pub fn remove(&mut self, id: &NodeId)
        ensures
            closed_off(old(self).untyped(), *id, final(self).untyped()),
            final(self)@ == old(self)@.remove(*id),
    {
        self.channels.remove(id);
    }

    /// Closes the endpoint from `id` and removes it from the set; nothing
    /// happens when there is none.
    /// Parks the thread: must not be called from within an asynchronous
    /// runtime, where tokio panics on a blocking lock or receive.
    pub fn close(&mut self, id: &NodeId)
        ensures
            closed_off(old(self).untyped(), *id, final(self).untyped()),
            final(self)@ == old(self)@.remove(*id),
    {
        self.channels.close(id);
    }

    /// Closes every endpoint, at teardown; the entries stay.
    /// Parks the thread: must not be called from within an asynchronous
    /// runtime, where tokio panics on a blocking lock or receive.
    pub fn close_all(&mut self)
        ensures
            *final(self) == *old(self),
    {
        self.channels.close_all();
    }
}

} // verus!
