//! Draining bursts of ready notifications into one fetch request.
//!
//! A drain collects, from the topics of the notifications it is shown, the
//! authorized namespaces that were announced ready. It is a state machine:
//! the caller performs the action it is given (wait for a notification, look
//! for a buffered one, fetch) and reports what happened as the next event.
//! However many notifications arrive, one drain ends in at most one fetch,
//! for each announced namespace once.

use vstd::prelude::*;
use crate::channel_name::{
    has_separator, lemma_parse_inverts_build, parse_channel_route, route_segments, segment_views,
};
use crate::service::{lemma_ready_topic_plain, name_views, ready_channel, DbService, READY_TOPIC};
use crate::text::same_text;

verus! {

/// A task that the store reports as ready to be processed.
#[derive(Clone, Debug)]
pub struct ReadyTask {
    pub id: i64,
    pub namespace: String,
    pub task_name: String,
    pub context: Vec<u8>,
}

/// What a ready task says, as plain values.
pub struct ReadyRecord {
    pub id: i64,
    pub namespace: Seq<char>,
    pub task_name: Seq<char>,
    pub context: Seq<u8>,
}

impl View for ReadyTask {
    type V = ReadyRecord;

    open spec fn view(&self) -> ReadyRecord {
        ReadyRecord {
            id: self.id,
            namespace: self.namespace@,
            task_name: self.task_name@,
            context: self.context@,
        }
    }
}

/// One row of a fetch response, each column as its decoding came out: the
/// value, or the failure of type `E` that decoding it ran into.
pub struct FetchedRow<E> {
    pub id: Result<i64, E>,
    pub namespace: Result<String, E>,
    pub task_name: Result<String, E>,
    pub context: Result<Vec<u8>, E>,
}

impl<E> FetchedRow<E> {
    /// Whether every column of the row decoded.
    pub open spec fn decodes(&self) -> bool {
        self.id is Ok && self.namespace is Ok && self.task_name is Ok && self.context is Ok
    }

    /// The task that a row holds whose columns all decoded.
    pub open spec fn record(&self) -> ReadyRecord
        recommends
            self.decodes(),
    {
        ReadyRecord {
            id: self.id->Ok_0,
            namespace: self.namespace->Ok_0@,
            task_name: self.task_name->Ok_0@,
            context: self.context->Ok_0@,
        }
    }

    /// The failure of the first column that did not decode, the columns
    /// taken in the order id, namespace, task name, context.
    pub open spec fn failure(&self) -> E
        recommends
            !self.decodes(),
    {
        if self.id is Err {
            self.id->Err_0
        } else if self.namespace is Err {
            self.namespace->Err_0
        } else if self.task_name is Err {
            self.task_name->Err_0
        } else {
            self.context->Err_0
        }
    }

    /// Turns the row into its task, or into the failure of its first column
    /// that did not decode.
    pub fn into_task(self) -> (task: Result<ReadyTask, E>)
        ensures
            task is Ok <==> self.decodes(),
            task matches Ok(ready) ==> ready@ == self.record(),
            task matches Err(error) ==> error == self.failure(),
    {
        let id = match self.id {
            Ok(id) => id,
            Err(error) => {
                return Err(error);
            },
        };
        let namespace = match self.namespace {
            Ok(namespace) => namespace,
            Err(error) => {
                return Err(error);
            },
        };
        let task_name = match self.task_name {
            Ok(task_name) => task_name,
            Err(error) => {
                return Err(error);
            },
        };
        let context = match self.context {
            Ok(context) => context,
            Err(error) => {
                return Err(error);
            },
        };
        Ok(ReadyTask { id, namespace, task_name, context })
    }
}

/// Whether every row of a fetch response decoded in every column.
pub open spec fn all_decode<E>(rows: Seq<FetchedRow<E>>) -> bool {
    forall|i: int| 0 <= i < rows.len() ==> (#[trigger] rows[i]).decodes()
}

/// The ready tasks of a fetch response: one per row, in the order of the
/// rows, none added, dropped or moved. A row with a column that did not
/// decode fails the whole response, with the failure of the first such row.
pub fn ready_tasks_from_rows<E>(rows: Vec<FetchedRow<E>>) -> (fetched: Result<Vec<ReadyTask>, E>)
    ensures
        fetched is Ok <==> all_decode(rows@),
        fetched matches Ok(tasks) ==> {
            &&& tasks@.len() == rows@.len()
            &&& forall|i: int|
                0 <= i < rows@.len() ==> (#[trigger] tasks@[i])@ == rows@[i].record()
        },
        fetched matches Err(error) ==> exists|first: int|
            {
                &&& 0 <= first < rows@.len()
                &&& !(#[trigger] rows@[first]).decodes()
                &&& error == rows@[first].failure()
                &&& all_decode(rows@.take(first))
            },
{
    let ghost all = rows@;
    let mut tasks: Vec<ReadyTask> = Vec::new();
    for row in it: rows
        invariant
            it.seq() == all,
            tasks@.len() == it.index(),
            forall|i: int| 0 <= i < it.index() ==> (#[trigger] all[i]).decodes(),
            forall|i: int| 0 <= i < it.index() ==> (#[trigger] tasks@[i])@ == all[i].record(),
    {
        let ghost at = it.index();
        assert(row == all[at]);
        match row.into_task() {
            Ok(task) => {
                tasks.push(task);
            },
            Err(error) => {
                assert(all_decode(all.take(at)));
                return Err(error);
            },
        }
    }
    Ok(tasks)
}

/// The namespace that a topic announces as ready: the second segment of a
/// two-segment route whose first segment is the ready topic. Any other text
/// announces nothing.
pub open spec fn ready_namespace(channel: Seq<char>) -> Option<Seq<char>> {
    let segments = route_segments(channel);
    if segments.len() == 2 && segments[0] == READY_TOPIC@ {
        Some(segments[1])
    } else {
        None
    }
}

/// The pending set after one more notification: the announced namespace
/// joins it if it is authorized; otherwise nothing changes.
pub open spec fn absorb(
    authorized: Seq<Seq<char>>,
    pending: Set<Seq<char>>,
    channel: Seq<char>,
) -> Set<Seq<char>> {
    match ready_namespace(channel) {
        Some(namespace) => if authorized.contains(namespace) {
            pending.insert(namespace)
        } else {
            pending
        },
        None => pending,
    }
}

/// The pending set after a burst of notifications, absorbed in order of
/// arrival, starting from nothing.
pub open spec fn pending_after(authorized: Seq<Seq<char>>, channels: Seq<Seq<char>>) -> Set<
    Seq<char>,
>
    decreases channels.len(),
{
    if channels.len() == 0 {
        Set::empty()
    } else {
        absorb(authorized, pending_after(authorized, channels.drop_last()), channels.last())
    }
}

/// The namespaces to fetch for: the authorized ones that are pending, in
/// the order of the authorized list.
pub open spec fn fetch_list(authorized: Seq<Seq<char>>, pending: Set<Seq<char>>) -> Seq<
    Seq<char>,
> {
    authorized.filter(|namespace: Seq<char>| pending.contains(namespace))
}

/// Filtering a list without repeats leaves no repeats, and keeps exactly
/// the members that pass.
proof fn lemma_filter_distinct(names: Seq<Seq<char>>, keep: spec_fn(Seq<char>) -> bool)
    requires
        names.no_duplicates(),
    ensures
        names.filter(keep).no_duplicates(),
        forall|name: Seq<char>| #[trigger]
            names.filter(keep).contains(name) ==> names.contains(name) && keep(name),
        forall|name: Seq<char>|
            #[trigger] names.contains(name) && keep(name) ==> names.filter(keep).contains(name),
    decreases names.len(),
{
    reveal(Seq::filter);
    if names.len() > 0 {
        let init = names.drop_last();
        let last = names.last();
        lemma_filter_distinct(init, keep);
        let kept = init.filter(keep);
        let all = names.filter(keep);
        assert(!init.contains(last)) by {
            if init.contains(last) {
                let i = choose|i: int| 0 <= i < init.len() && init[i] == last;
                assert(names[i] == names[names.len() - 1]);
            }
        }
        assert(all.no_duplicates()) by {
            assert forall|i: int, j: int| 0 <= i < all.len() && 0 <= j < all.len() && i != j
                implies all[i] != all[j] by {
                if i < kept.len() && j < kept.len() {
                    assert(kept[i] != kept[j]);
                } else if i < kept.len() {
                    assert(kept.contains(kept[i]));
                } else {
                    assert(kept.contains(kept[j]));
                }
            }
        }
        assert forall|name: Seq<char>| #[trigger]
            names.contains(name) && keep(name) implies all.contains(name) by {
            {
                let i = choose|i: int| 0 <= i < names.len() && names[i] == name;
                if i < init.len() {
                    assert(init[i] == name);
                    assert(init.contains(name));
                    let k = choose|k: int| 0 <= k < kept.len() && kept[k] == name;
                    assert(all[k] == name);
                } else {
                    assert(all[kept.len() as int] == name);
                }
            }
        }
        assert forall|name: Seq<char>| #[trigger] all.contains(name) implies names.contains(name)
            && keep(name) by {
            {
                let k = choose|k: int| 0 <= k < all.len() && all[k] == name;
                if k < kept.len() {
                    assert(kept[k] == name);
                    assert(kept.contains(name));
                    let i = choose|i: int| 0 <= i < init.len() && init[i] == name;
                    assert(names[i] == name);
                } else {
                    assert(names[names.len() - 1] == name);
                }
            }
        }
    }
}

/// A fetch request names every pending namespace once: it has no repeats,
/// and its members are the pending namespaces.
pub proof fn lemma_fetch_list_exact(authorized: Seq<Seq<char>>, pending: Set<Seq<char>>)
    requires
        authorized.no_duplicates(),
        forall|namespace: Seq<char>| pending.contains(namespace) ==> authorized.contains(namespace),
    ensures
        fetch_list(authorized, pending).no_duplicates(),
        fetch_list(authorized, pending).to_set() == pending,
        fetch_list(authorized, pending).len() == 0 <==> pending.is_empty(),
{
    let keep = |namespace: Seq<char>| pending.contains(namespace);
    let list = fetch_list(authorized, pending);
    lemma_filter_distinct(authorized, keep);
    assert(list.to_set() =~= pending);
    if list.len() > 0 {
        assert(list.contains(list[0]));
        assert(pending.contains(list[0]));
    }
    if !pending.is_empty() {
        let some = choose|namespace: Seq<char>| pending.contains(namespace);
        assert(list.contains(some));
    }
}

/// The topic that a service subscribes to for a namespace announces that
/// namespace and no other.
pub proof fn lemma_ready_channel_announces(namespace: Seq<char>)
    requires
        !has_separator(namespace),
    ensures
        ready_namespace(ready_channel(namespace)) == Some(namespace),
{
    lemma_ready_topic_plain();
    let route = seq![READY_TOPIC@, namespace];
    assert forall|i: int| 0 <= i < route.len() implies !has_separator(#[trigger] route[i]) by {
        if i == 0 {
            assert(route[i] == READY_TOPIC@);
        } else {
            assert(route[i] == namespace);
        }
    }
    lemma_parse_inverts_build(route);
}

/// Whether some notification of a burst announces `namespace`.
pub open spec fn announces(channels: Seq<Seq<char>>, namespace: Seq<char>) -> bool {
    exists|i: int|
        0 <= i < channels.len() && ready_namespace(#[trigger] channels[i]) == Some(namespace)
}

/// What a burst leaves pending does not depend on the order or the number
/// of its notifications: a namespace is pending exactly if it is authorized
/// and some notification of the burst announces it.
pub proof fn lemma_pending_after(authorized: Seq<Seq<char>>, channels: Seq<Seq<char>>)
    ensures
        pending_after(authorized, channels) == Set::new(
            |namespace: Seq<char>|
                authorized.contains(namespace) && announces(channels, namespace),
        ),
    decreases channels.len(),
{
    let burst = Set::new(
        |namespace: Seq<char>| authorized.contains(namespace) && announces(channels, namespace),
    );
    if channels.len() == 0 {
        assert(pending_after(authorized, channels) =~= burst);
    } else {
        let init = channels.drop_last();
        let last = channels.last();
        lemma_pending_after(authorized, init);
        let after = pending_after(authorized, channels);
        assert forall|namespace: Seq<char>| announces(channels, namespace) <==> announces(
            init,
            namespace,
        ) || ready_namespace(last) == Some(namespace) by {
            if announces(channels, namespace) {
                let i = choose|i: int|
                    0 <= i < channels.len() && ready_namespace(#[trigger] channels[i]) == Some(
                        namespace,
                    );
                if i < init.len() {
                    assert(init[i] == channels[i]);
                }
            }
            if announces(init, namespace) {
                let i = choose|i: int|
                    0 <= i < init.len() && ready_namespace(#[trigger] init[i]) == Some(
                        namespace,
                    );
                assert(channels[i] == init[i]);
            }
            if ready_namespace(last) == Some(namespace) {
                assert(channels[channels.len() - 1] == last);
            }
        }
        assert(after =~= burst);
    }
}

/// A second notification on the same topic changes nothing.
pub proof fn lemma_absorb_idempotent(
    authorized: Seq<Seq<char>>,
    pending: Set<Seq<char>>,
    channel: Seq<char>,
)
    ensures
        absorb(authorized, absorb(authorized, pending, channel), channel) == absorb(
            authorized,
            pending,
            channel,
        ),
{
    let once = absorb(authorized, pending, channel);
    assert(absorb(authorized, once, channel) =~= once);
}

/// What the caller of a drain reports to it.
pub enum DrainEvent<'e> {
    /// A drain cycle begins.
    Start,
    /// A notification arrived on the topic `channel`.
    Notification { channel: &'e str },
    /// The look for a buffered notification found none.
    BufferEmpty,
}

/// What a drain asks its caller to do next.
pub enum DrainAction<'a> {
    /// Suspend until the next notification arrives, then report it.
    WaitForNotification,
    /// Look for an already buffered notification without suspending, and
    /// report it or its absence.
    CheckBuffered,
    /// End the cycle with one fetch for these namespaces.
    Fetch { namespaces: Vec<&'a str> },
    /// End the cycle with no tasks and without a round trip.
    ReturnEmpty,
}

/// The action while notifications are still being taken in: with nothing
/// pending the caller waits, otherwise it only looks at what is buffered.
pub open spec fn keeps_draining(pending: Set<Seq<char>>, action: DrainAction) -> bool {
    if pending.is_empty() {
        action is WaitForNotification
    } else {
        action is CheckBuffered
    }
}

/// The action that ends a cycle: one fetch for exactly the pending
/// namespaces, or no fetch at all if nothing is pending.
pub open spec fn ends_cycle(
    authorized: Seq<Seq<char>>,
    pending: Set<Seq<char>>,
    action: DrainAction,
) -> bool {
    if pending.is_empty() {
        action is ReturnEmpty
    } else {
        &&& action matches DrainAction::Fetch { namespaces }
        &&& segment_views(namespaces@) == fetch_list(authorized, pending)
        &&& segment_views(namespaces@).no_duplicates()
        &&& namespaces@.len() > 0
    }
}

/// The pending namespaces of one service, as marks on its authorized list.
pub struct NotificationDrain<'a> {
    service: &'a DbService,
    marked: Vec<bool>,
}

impl<'a> NotificationDrain<'a> {
    #[verifier::type_invariant]
    spec fn consistent(self) -> bool {
        &&& self.marked@.len() == self.service@.len()
        &&& self.service@.no_duplicates()
    }

    /// The namespaces that the service of this drain is authorized for.
    pub closed spec fn authorized(&self) -> Seq<Seq<char>> {
        self.service@
    }

    /// The namespaces announced ready since the cycle began.
    pub closed spec fn pending(&self) -> Set<Seq<char>> {
        Set::new(
            |namespace: Seq<char>|
                exists|i: int|
                    0 <= i < self.marked@.len() && self.marked@[i] && #[trigger] self.service@[i]
                        == namespace,
        )
    }

    /// Whether every pending namespace is an authorized one.
    pub open spec fn in_scope(&self) -> bool {
        forall|namespace: Seq<char>| #[trigger]
            self.pending().contains(namespace) ==> self.authorized().contains(namespace)
    }

    /// A drain for `service` with nothing pending.
    pub fn new(service: &'a DbService) -> (drain: NotificationDrain<'a>)
        ensures
            drain.authorized() == service@,
            drain.pending().is_empty(),
            drain.in_scope(),
    {
        let names = service.namespaces();
        let mut marked: Vec<bool> = Vec::new();
        let mut i: usize = 0;
        while i < names.len()
            invariant
                i <= names@.len(),
                marked@.len() == i,
                forall|k: int| 0 <= k < i ==> !marked@[k],
            decreases names@.len() - i,
        {
            marked.push(false);
            i += 1;
        }
        let drain = NotificationDrain { service, marked };
        assert(drain.pending() =~= Set::empty());
        proof {
            use_type_invariant(&drain);
            drain.lemma_in_scope();
        }
        drain
    }

    /// Takes one event and says what to do next.
    ///
    /// A notification is absorbed into the pending set; while the set is
    /// empty the caller is told to wait, otherwise to look at the buffer.
    /// An empty buffer ends the cycle: with one fetch for the pending
    /// namespaces, or with none if there are none. The drain is then back
    /// at the start, with nothing pending.
    pub fn step(&mut self, event: DrainEvent<'_>) -> (action: DrainAction<'a>)
        ensures
            final(self).authorized() == old(self).authorized(),
            final(self).in_scope(),
            event is Start ==> {
                &&& final(self).pending() == old(self).pending()
                &&& keeps_draining(final(self).pending(), action)
            },
            event matches DrainEvent::Notification { channel } ==> {
                &&& final(self).pending() == absorb(
                    old(self).authorized(),
                    old(self).pending(),
                    channel@,
                )
                &&& keeps_draining(final(self).pending(), action)
            },
            event is BufferEmpty ==> {
                &&& final(self).pending().is_empty()
                &&& ends_cycle(old(self).authorized(), old(self).pending(), action)
            },
    {
        let action = match event {
            DrainEvent::Start => {
                self.waiting()
            },
            DrainEvent::Notification { channel } => {
                self.observe(channel);
                self.waiting()
            },
            DrainEvent::BufferEmpty => {
                self.finish()
            },
        };
        proof {
            use_type_invariant(&*self);
            self.lemma_in_scope();
        }
        action
    }

    /// Marks stand only on authorized namespaces.
    proof fn lemma_in_scope(&self)
        requires
            self.marked@.len() == self.service@.len(),
        ensures
            self.in_scope(),
    {
        assert forall|namespace: Seq<char>| #[trigger]
            self.pending().contains(namespace) implies self.authorized().contains(namespace) by {
            let i = choose|i: int|
                0 <= i < self.marked@.len() && self.marked@[i] && #[trigger] self.service@[i]
                    == namespace;
            assert(self.service@[i] == namespace);
        }
    }

    /// The action while notifications are still being taken in.
    fn waiting(&self) -> (action: DrainAction<'a>)
        ensures
            keeps_draining(self.pending(), action),
    {
        let mut i: usize = 0;
        while i < self.marked.len()
            invariant
                i <= self.marked@.len(),
                forall|k: int| 0 <= k < i ==> !self.marked@[k],
            decreases self.marked@.len() - i,
        {
            if self.marked[i] {
                proof {
                    use_type_invariant(self);
                    assert(self.pending().contains(self.service@[i as int]));
                }
                return DrainAction::CheckBuffered;
            }
            i += 1;
        }
        assert(self.pending() =~= Set::empty());
        DrainAction::WaitForNotification
    }

    /// Marks the namespace that `channel` announces, if it is authorized.
    fn observe(&mut self, channel: &str)
        ensures
            final(self).authorized() == old(self).authorized(),
            final(self).pending() == absorb(old(self).authorized(), old(self).pending(), channel@),
    {
        proof {
            use_type_invariant(&*self);
        }
        let parsed = parse_channel_route::<2>(channel);
        if let Some(segments) = parsed {
            if same_text(segments[0], READY_TOPIC) {
                if let Some(index) = self.service.position(segments[1]) {
                    let ghost before = self.marked@;
                    self.marked[index] = true;
                    proof {
                        let namespace = segments@[1]@;
                        assert(ready_namespace(channel@) == Some(namespace));
                        assert(self.service@[index as int] == namespace);
                        assert(self.marked@[index as int]);
                        assert forall|other: Seq<char>|
                            self.pending().contains(other) <==> old(self).pending().insert(
                                namespace,
                            ).contains(other) by {
                            if self.pending().contains(other) {
                                let i = choose|i: int|
                                    0 <= i < self.marked@.len() && self.marked@[i]
                                        && #[trigger] self.service@[i] == other;
                                if i != index {
                                    assert(before[i]);
                                }
                            }
                            if old(self).pending().contains(other) {
                                let i = choose|i: int|
                                    0 <= i < before.len() && before[i]
                                        && #[trigger] self.service@[i] == other;
                                assert(self.marked@[i]);
                            }
                        }
                        assert(self.pending() =~= old(self).pending().insert(namespace));
                    }
                }
            }
        }
    }

    /// Ends the cycle: hands out the pending namespaces and clears them.
    fn finish(&mut self) -> (action: DrainAction<'a>)
        ensures
            final(self).authorized() == old(self).authorized(),
            final(self).pending().is_empty(),
            ends_cycle(old(self).authorized(), old(self).pending(), action),
    {
        proof {
            use_type_invariant(&*self);
        }
        let service: &'a DbService = self.service;
        let names = service.namespaces();
        let ghost authorized = self.service@;
        let ghost wanted = old(self).pending();
        let ghost keep = |namespace: Seq<char>| wanted.contains(namespace);
        let ghost before = self.marked@;
        let mut namespaces: Vec<&'a str> = Vec::new();
        let mut i: usize = 0;
        proof {
            reveal(Seq::filter);
            assert(authorized.take(0) =~= Seq::<Seq<char>>::empty());
        }
        while i < names.len()
            invariant
                i <= names@.len(),
                names@.len() == authorized.len(),
                name_views(names@) == authorized,
                authorized.no_duplicates(),
                self.service == service,
                service@ == authorized,
                self.marked@.len() == authorized.len(),
                before.len() == authorized.len(),
                forall|k: int| 0 <= k < i ==> !self.marked@[k],
                forall|k: int| i <= k < before.len() ==> self.marked@[k] == before[k],
                forall|k: int|
                    0 <= k < before.len() ==> (before[k] <==> wanted.contains(
                        #[trigger] authorized[k],
                    )),
                keep == |namespace: Seq<char>| wanted.contains(namespace),
                segment_views(namespaces@) == authorized.take(i as int).filter(keep),
            decreases names@.len() - i,
        {
            proof {
                authorized.take(i as int).lemma_filter_push(authorized[i as int], keep);
                assert(authorized.take(i as int).push(authorized[i as int]) =~= authorized.take(
                    i + 1,
                ));
            }
            if self.marked[i] {
                let ghost listed = segment_views(namespaces@);
                namespaces.push(names[i].as_str());
                assert(segment_views(namespaces@) =~= listed.push(authorized[i as int]));
                self.marked[i] = false;
            }
            i += 1;
        }
        proof {
            assert(authorized.take(i as int) =~= authorized);
            assert(self.pending() =~= Set::empty());
            assert forall|namespace: Seq<char>| wanted.contains(namespace)
                implies authorized.contains(namespace) by {
                let k = choose|k: int|
                    0 <= k < before.len() && before[k] && #[trigger] authorized[k] == namespace;
                assert(authorized[k] == namespace);
            }
            lemma_fetch_list_exact(authorized, wanted);
        }
        if namespaces.len() == 0 {
            DrainAction::ReturnEmpty
        } else {
            DrainAction::Fetch { namespaces }
        }
    }
}

impl DbService {
    /// The one fetch that a whole burst of notifications asks for.
    ///
    /// Runs a drain over the topics of the burst, in order of arrival, and
    /// ends it. The request names each authorized namespace that the burst
    /// announces once; a burst that announces none asks for no fetch.
    pub fn fetch_request<'a>(&'a self, channels: &[&str]) -> (request: Option<Vec<&'a str>>)
        ensures
            request is None <==> pending_after(self@, segment_views(channels@)).is_empty(),
            request matches Some(namespaces) ==> {
                &&& segment_views(namespaces@) == fetch_list(
                    self@,
                    pending_after(self@, segment_views(channels@)),
                )
                &&& segment_views(namespaces@).no_duplicates()
                &&& namespaces@.len() > 0
            },
    {
        let ghost topics = segment_views(channels@);
        let mut drain = NotificationDrain::new(self);
        let mut i: usize = 0;
        assert(topics.take(0) =~= Seq::<Seq<char>>::empty());
        while i < channels.len()
            invariant
                i <= channels@.len(),
                topics == segment_views(channels@),
                drain.authorized() == self@,
                drain.pending() == pending_after(self@, topics.take(i as int)),
            decreases channels@.len() - i,
        {
            proof {
                assert(topics.take(i + 1).drop_last() =~= topics.take(i as int));
                assert(topics.take(i + 1).last() == channels@[i as int]@);
            }
            drain.step(DrainEvent::Notification { channel: channels[i] });
            i += 1;
        }
        assert(topics.take(i as int) =~= topics);
        match drain.step(DrainEvent::BufferEmpty) {
            DrainAction::Fetch { namespaces } => Some(namespaces),
            _ => None,
        }
    }
}

} // verus!
