//! The event table: named slots, each holding at most one handler.
//!
//! A handler is whatever the host registers (`H`); this module never calls
//! one. Triggering resolves a name to the handler that is owed a call and
//! hands it back with the payload, and the caller makes the call.

use vstd::prelude::*;

verus! {

/// A single slot holding at most one registered handler.
pub struct Event<H> {
    pub handler: Option<H>,
}

/// The outcome of triggering a name.
pub enum Dispatch<'a, H, P> {
    /// The name is not bound: nothing happens.
    Unbound,
    /// The name is bound but no handler is registered on it: nothing is called.
    Silent,
    /// The handler to call, once, with this payload.
    Invoke { handler: &'a H, payload: P },
}

impl<H> Event<H> {
    /// An empty slot.
    pub fn new() -> (event: Event<H>)
        ensures
            event.handler is None,
    {
        Event { handler: None }
    }

    /// Registers `handler`, replacing the one registered before, if any.
    pub fn register(&mut self, handler: H)
        ensures
            final(self).handler == Some(handler),
    {
        self.handler = Some(handler);
    }

    /// What invoking this slot with `payload` amounts to: a call of the
    /// registered handler, or nothing where none is registered.
    pub open spec fn invocation<'a, P>(&'a self, payload: P) -> Dispatch<'a, H, P> {
        match self.handler {
            Some(handler) => Dispatch::Invoke { handler: &handler, payload },
            None => Dispatch::Silent,
        }
    }

    /// Resolves an invocation of this slot with `payload`.
    pub fn call<P>(&self, payload: P) -> (r: Dispatch<'_, H, P>)
        ensures
            r == self.invocation(payload),
    {
        match &self.handler {
            Some(handler) => Dispatch::Invoke { handler, payload },
            None => Dispatch::Silent,
        }
    }
}

impl<'a, H, P> Dispatch<'a, H, P> {
    /// Whether the name was bound, with or without a handler.
    pub fn bound(&self) -> (b: bool)
        ensures
            b == !(self is Unbound),
    {
        match self {
            Dispatch::Unbound => false,
            _ => true,
        }
    }
}

/// The table reached from the empty one by binding `names` in order, each to
/// the slot listed beside it: entry after entry is inserted, and a later one
/// replaces an earlier one of the same name.
pub open spec fn table_of<H>(names: Seq<Seq<char>>, events: Seq<Event<H>>) -> Map<
    Seq<char>,
    Event<H>,
>
    recommends
        names.len() == events.len(),
    decreases names.len(),
{
    if names.len() == 0 || events.len() == 0 {
        Map::empty()
    } else {
        table_of(names.drop_last(), events.drop_last()).insert(names.last(), events.last())
    }
}

/// True when no name occurs twice.
pub open spec fn distinct(names: Seq<Seq<char>>) -> bool {
    forall|i: int, j: int| 0 <= i < j < names.len() ==> names[i] != names[j]
}

/// The views of a list of strings, in order.
pub open spec fn names_view(names: Seq<String>) -> Seq<Seq<char>> {
    Seq::new(names.len(), |k: int| names[k]@)
}

/// The table holds exactly the listed names.
pub proof fn lemma_table_domain<H>(names: Seq<Seq<char>>, events: Seq<Event<H>>)
    requires
        names.len() == events.len(),
    ensures
        forall|n: Seq<char>| #[trigger]
            table_of(names, events).contains_key(n) <==> names.contains(n),
    decreases names.len(),
{
    if names.len() > 0 {
        lemma_table_domain(names.drop_last(), events.drop_last());
        let dl = names.drop_last();
        assert forall|n: Seq<char>| #[trigger]
            table_of(names, events).contains_key(n) <==> names.contains(n) by {
            if table_of(names, events).contains_key(n) {
                if n == names.last() {
                    assert(names[names.len() - 1] == n);
                } else {
                    assert(table_of(dl, events.drop_last()).contains_key(n));
                    assert(dl.contains(n));
                    let i = choose|i: int| 0 <= i < dl.len() && dl[i] == n;
                    assert(names[i] == n);
                }
            }
            if names.contains(n) {
                let i = choose|i: int| 0 <= i < names.len() && names[i] == n;
                if i < names.len() - 1 {
                    assert(dl[i] == n);
                    assert(dl.contains(n));
                    assert(table_of(dl, events.drop_last()).contains_key(n));
                }
            }
        }
    }
}

/// With distinct names, each name maps to the slot listed beside it.
pub proof fn lemma_table_entry<H>(names: Seq<Seq<char>>, events: Seq<Event<H>>, i: int)
    requires
        names.len() == events.len(),
        distinct(names),
        0 <= i < names.len(),
    ensures
        table_of(names, events).contains_key(names[i]),
        table_of(names, events)[names[i]] == events[i],
    decreases names.len(),
{
    if i < names.len() - 1 {
        assert(names.drop_last()[i] == names[i]);
        assert(events.drop_last()[i] == events[i]);
        lemma_table_entry(names.drop_last(), events.drop_last(), i);
        assert(names[i] != names[names.len() - 1]);
    }
}

/// With distinct names, replacing the slot beside a name replaces that
/// name's entry and no other.
pub proof fn lemma_table_update<H>(
    names: Seq<Seq<char>>,
    events: Seq<Event<H>>,
    i: int,
    event: Event<H>,
)
    requires
        names.len() == events.len(),
        distinct(names),
        0 <= i < names.len(),
    ensures
        table_of(names, events.update(i, event)) == table_of(names, events).insert(names[i], event),
    decreases names.len(),
{
    let updated = events.update(i, event);
    if i < names.len() - 1 {
        assert(names.drop_last()[i] == names[i]);
        lemma_table_update(names.drop_last(), events.drop_last(), i, event);
        assert(updated.drop_last() =~= events.drop_last().update(i, event));
        assert(updated.last() == events.last());
        assert(names[i] != names[names.len() - 1]);
        assert(table_of(names, updated) =~= table_of(names, events).insert(names[i], event));
    } else {
        assert(updated.drop_last() =~= events.drop_last());
        assert(table_of(names, updated) =~= table_of(names, events).insert(names[i], event));
    }
}

/// A mapping from event name to slot.
pub struct EventBus<H> {
    names: Vec<String>,
    events: Vec<Event<H>>,
}

impl<H> View for EventBus<H> {
    type V = Map<Seq<char>, Event<H>>;

    closed spec fn view(&self) -> Map<Seq<char>, Event<H>> {
        table_of(names_view(self.names@), self.events@)
    }
}

/// What triggering `name` with `payload` on `table` amounts to.
pub open spec fn resolve<'a, H, P>(table: Map<Seq<char>, Event<H>>, name: Seq<char>, payload: P) -> Dispatch<
    'a,
    H,
    P,
> {
    if table.contains_key(name) {
        match table[name].handler {
            Some(handler) => Dispatch::Invoke { handler: &handler, payload },
            None => Dispatch::Silent,
        }
    } else {
        Dispatch::Unbound
    }
}

/// Binding a name again discards the slot bound before: the table is as if
/// the earlier binding had never been, and the name resolves to the later
/// slot alone.
pub proof fn lemma_rebind_discards_earlier<H, P>(
    table: Map<Seq<char>, Event<H>>,
    name: Seq<char>,
    earlier: Event<H>,
    later: Event<H>,
    payload: P,
)
    ensures
        table.insert(name, earlier).insert(name, later) == table.insert(name, later),
        resolve(table.insert(name, earlier).insert(name, later), name, payload)
            == later.invocation(payload),
{
    assert(table.insert(name, earlier).insert(name, later) =~= table.insert(name, later));
}

/// Binding the same name again and again leaves only the latest slot
/// reachable: after the names are bound in order, a name resolves to the
/// slot of its last binding, whatever was registered on the earlier ones.
pub proof fn lemma_latest_binding_wins<H, P>(
    names: Seq<Seq<char>>,
    events: Seq<Event<H>>,
    i: int,
    payload: P,
)
    requires
        names.len() == events.len(),
        0 <= i < names.len(),
        forall|j: int| i < j < names.len() ==> names[j] != names[i],
    ensures
        table_of(names, events).contains_key(names[i]),
        table_of(names, events)[names[i]] == events[i],
        resolve(table_of(names, events), names[i], payload) == events[i].invocation(payload),
    decreases names.len(),
{
    if i < names.len() - 1 {
        assert(names[names.len() - 1] != names[i]);
        assert(names.drop_last()[i] == names[i]);
        assert(events.drop_last()[i] == events[i]);
        assert forall|j: int| i < j < names.drop_last().len() implies names.drop_last()[j]
            != names.drop_last()[i] by {
            assert(names.drop_last()[j] == names[j]);
        }
        lemma_latest_binding_wins(names.drop_last(), events.drop_last(), i, payload);
    }
}

/// Triggering reports a name as unbound exactly when it was never bound:
/// after the names are bound in order, the outcome is [`Dispatch::Unbound`]
/// if and only if the name is not among them.
pub proof fn lemma_unbound_iff_never_bound<H, P>(
    names: Seq<Seq<char>>,
    events: Seq<Event<H>>,
    name: Seq<char>,
    payload: P,
)
    requires
        names.len() == events.len(),
    ensures
        resolve(table_of(names, events), name, payload) is Unbound <==> !names.contains(name),
{
    lemma_table_domain(names, events);
}

impl<H> EventBus<H> {
    /// Each name is listed once, beside its slot.
    pub closed spec fn wf(&self) -> bool {
        &&& self.names@.len() == self.events@.len()
        &&& distinct(names_view(self.names@))
    }

    /// An empty table.
    pub fn new() -> (bus: EventBus<H>)
        ensures
            bus.wf(),
            bus@ == Map::<Seq<char>, Event<H>>::empty(),
    {
        let bus = EventBus { names: Vec::new(), events: Vec::new() };
        assert(names_view(bus.names@) =~= Seq::<Seq<char>>::empty());
        bus
    }

    /// The position at which `name` is listed, if it is.
    fn position(&self, name: &str) -> (r: Option<usize>)
        requires
            self.wf(),
        ensures
            r matches Some(i) ==> i < self.names@.len() && self.names@[i as int]@ == name@,
            r is None ==> !names_view(self.names@).contains(name@),
    {
        let wanted = name.to_owned();
        let mut i: usize = 0;
        while i < self.names.len()
            invariant
                i <= self.names@.len(),
                wanted@ == name@,
                forall|j: int| 0 <= j < i ==> self.names@[j]@ != name@,
            decreases self.names.len() - i,
        {
            if self.names[i] == wanted {
                return Some(i);
            }
            i += 1;
        }
        None
    }

    /// The slot bound to `name`, if one is.
    pub fn lookup(&self, name: &str) -> (r: Option<&Event<H>>)
        requires
            self.wf(),
        ensures
            r is Some <==> self@.contains_key(name@),
            r matches Some(event) ==> *event == self@[name@],
    {
        match self.position(name) {
            Some(i) => {
                proof {
                    lemma_table_entry(names_view(self.names@), self.events@, i as int);
                }
                Some(&self.events[i])
            },
            None => {
                proof {
                    lemma_table_domain(names_view(self.names@), self.events@);
                }
                None
            },
        }
    }

    /// Binds `name` to a fresh, empty slot, discarding the slot bound to it
    /// before, and returns the new slot so that a handler can be registered
    /// on it. Every other name keeps its slot.
    pub fn bind(&mut self, name: &str) -> (event: &mut Event<H>)
        requires
            old(self).wf(),
        ensures
            event.handler is None,
            final(self).wf(),
            final(self)@ == old(self)@.insert(name@, *final(event)),
    {
        let ghost before = self@;
        let found = self.position(name);
        let i: usize = match found {
            Some(i) => {
                let ghost slots = self.events@;
                self.events[i] = Event::new();
                proof {
                    let names = names_view(self.names@);
                    assert forall|e: Event<H>|
                        table_of(names, #[trigger] self.events@.update(i as int, e))
                            == before.insert(name@, e) by {
                        lemma_table_update(names, slots, i as int, e);
                        assert(self.events@.update(i as int, e) =~= slots.update(i as int, e));
                    }
                }
                i
            },
            None => {
                let ghost names = names_view(self.names@);
                let ghost slots = self.events@;
                self.names.push(name.to_owned());
                self.events.push(Event::new());
                proof {
                    let grown = names_view(self.names@);
                    assert(grown =~= names.push(name@));
                    assert(grown.drop_last() =~= names);
                    assert forall|e: Event<H>|
                        table_of(grown, #[trigger] self.events@.update(slots.len() as int, e))
                            == before.insert(name@, e) by {
                        let filled = self.events@.update(slots.len() as int, e);
                        assert(filled.drop_last() =~= slots);
                        assert(filled.last() == e);
                    }
                }
                self.names.len() - 1
            },
        };
        &mut self.events[i]
    }

    /// Triggers `name`: resolves it to the call that is owed.
    ///
    /// Returns [`Dispatch::Unbound`] exactly when `name` is not bound,
    /// [`Dispatch::Silent`] when it is bound to a slot without a handler, and
    /// otherwise the registered handler together with `payload`. The table
    /// is not changed.
    pub fn trigger<P>(&self, name: &str, payload: P) -> (r: Dispatch<'_, H, P>)
        requires
            self.wf(),
        ensures
            r == resolve(self@, name@, payload),
    {
        match self.lookup(name) {
            Some(event) => event.call(payload),
            None => Dispatch::Unbound,
        }
    }
}

} // verus!
