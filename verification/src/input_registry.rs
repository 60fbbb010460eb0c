use vstd::prelude::*;
use crate::text::{decimal_string, decimal_text};

verus! {

/// The keys that the game binds.
#[derive(Debug, Clone, Copy, PartialEq, Eq, Hash, Structural)]
pub enum KeyCode {
    F1,
    F2,
    F3,
    F4,
    F5,
    F6,
    F7,
    F8,
    F9,
    F10,
    F11,
    F12,
    Digit0,
    Digit1,
    Digit2,
    Digit3,
    Digit4,
    Digit5,
    Digit6,
    Digit7,
    Digit8,
    Digit9,
    KeyM,
    KeyR,
    Equal,
    Minus,
    Escape,
    Backquote,
    ControlLeft,
    ControlRight,
}

/// The area of the game that a handler serves.
#[derive(Debug, Clone, Copy, PartialEq, Eq, Hash, Structural)]
pub enum InputContext {
    /// Core game functionality.
    Game,
    /// Debug and development tools.
    Debug,
    /// Menus and panels.
    UI,
    /// Administrative and cheat functions.
    Admin,
    /// System-level functions such as pausing.
    System,
}

/// What the registry knows of a handler.
pub struct HandlerView {
    pub id: Seq<char>,
    pub description: Seq<char>,
    pub priority: u8,
    pub context: InputContext,
    pub keys: Seq<KeyCode>,
}

/// A key together with its handlers, highest priority first.
pub struct BindingView {
    pub key: KeyCode,
    pub handlers: Seq<HandlerView>,
}

/// Two handlers that claim the same key.
pub struct ConflictView {
    pub key: KeyCode,
    pub handler1: Seq<char>,
    pub handler2: Seq<char>,
    pub priority1: u8,
    pub priority2: u8,
    pub context1: InputContext,
    pub context2: InputContext,
}

/// The whole registry: bindings in the order their keys were first bound,
/// registered ids in registration order, conflicts in detection order.
pub struct RegistryView {
    pub bindings: Seq<BindingView>,
    pub registered: Seq<Seq<char>>,
    pub conflicts: Seq<ConflictView>,
    pub debug_logging: bool,
}

/// A key handler as the registry sees it: an identifier, a description, a
/// priority (higher is served first), a context and the keys it handles.
/// What the handler does when its key is pressed is kept by the caller,
/// under the same identifier.
#[derive(Debug, Clone)]
pub struct InputHandler {
    id: String,
    description: String,
    priority: u8,
    context: InputContext,
    keys: Vec<KeyCode>,
}

impl View for InputHandler {
    type V = HandlerView;

    closed spec fn view(&self) -> HandlerView {
        HandlerView {
            id: self.id@,
            description: self.description@,
            priority: self.priority,
            context: self.context,
            keys: self.keys@,
        }
    }
}

fn copy_keys(keys: &Vec<KeyCode>) -> (r: Vec<KeyCode>)
    ensures
        r@ == keys@,
{
    let mut r: Vec<KeyCode> = Vec::new();
    let mut i: usize = 0;
    while i < keys.len()
        invariant
            i <= keys.len(),
            r@ == keys@.take(i as int),
        decreases keys.len() - i,
    {
        r.push(keys[i]);
        i += 1;
        assert(r@ =~= keys@.take(i as int));
    }
    assert(keys@.take(keys.len() as int) =~= keys@);
    r
}

impl InputHandler {
    /// A handler with the given identifier, description, priority, context and keys.
    pub fn new(id: &str, description: &str, priority: u8, context: InputContext, keys: Vec<KeyCode>) -> (r: Self)
        ensures
            r@ == (HandlerView { id: id@, description: description@, priority, context, keys: keys@ }),
    {
        InputHandler { id: id.to_owned(), description: description.to_owned(), priority, context, keys }
    }

    /// A handler with the default priority (50) and the game context.
    pub fn with_defaults(id: &str, description: &str, keys: Vec<KeyCode>) -> (r: Self)
        ensures
            r@ == (HandlerView {
                id: id@,
                description: description@,
                priority: 50,
                context: InputContext::Game,
                keys: keys@,
            }),
    {
        InputHandler::new(id, description, 50, InputContext::Game, keys)
    }

    /// A copy of this handler.
    pub fn duplicate(&self) -> (r: Self)
        ensures
            r@ == self@,
    {
        InputHandler {
            id: self.id.clone(),
            description: self.description.clone(),
            priority: self.priority,
            context: self.context,
            keys: copy_keys(&self.keys),
        }
    }

    pub fn get_id(&self) -> (r: &str)
        ensures
            r@ == self@.id,
    {
        self.id.as_str()
    }

    pub fn get_description(&self) -> (r: &str)
        ensures
            r@ == self@.description,
    {
        self.description.as_str()
    }

    pub fn get_priority(&self) -> (r: u8)
        ensures
            r == self@.priority,
    {
        self.priority
    }

    pub fn get_context(&self) -> (r: InputContext)
        ensures
            r == self@.context,
    {
        self.context
    }

    /// Whether `key` is one of the handler's keys.
    pub fn handles_key(&self, key: KeyCode) -> (r: bool)
        ensures
            r == self@.keys.contains(key),
    {
        let mut i: usize = 0;
        while i < self.keys.len()
            invariant
                i <= self.keys.len(),
                forall|j: int| 0 <= j < i ==> self.keys@[j] != key,
            decreases self.keys.len() - i,
        {
            if self.keys[i] == key {
                return true;
            }
            i += 1;
        }
        false
    }

    /// The keys the handler is responsible for.
    pub fn get_handled_keys(&self) -> (r: Vec<KeyCode>)
        ensures
            r@ == self@.keys,
    {
        copy_keys(&self.keys)
    }
}

/// `i` is where a handler of priority `priority` goes among `s`: after every
/// handler of at least that priority, before the first of lower priority.
pub open spec fn is_priority_slot(s: Seq<HandlerView>, priority: u8, i: int) -> bool {
    &&& 0 <= i <= s.len()
    &&& forall|j: int| 0 <= j < i ==> #[trigger] s[j].priority >= priority
    &&& i < s.len() ==> s[i].priority < priority
}

/// Where a handler of priority `priority` goes among `s`.
pub open spec fn priority_slot(s: Seq<HandlerView>, priority: u8) -> int {
    choose|i: int| is_priority_slot(s, priority, i)
}

/// `s` with `h` inserted in priority order; among equal priorities, the
/// earlier registration stays first.
pub open spec fn insert_by_priority(s: Seq<HandlerView>, h: HandlerView) -> Seq<HandlerView> {
    s.insert(priority_slot(s, h.priority), h)
}

/// Highest priority first.
pub open spec fn sorted_by_priority(s: Seq<HandlerView>) -> bool {
    forall|i: int, j: int| 0 <= i < j < s.len() ==> #[trigger] s[i].priority >= #[trigger] s[j].priority
}

/// The conflict recorded when `h` joins `e` on `key`.
pub open spec fn conflict_of(e: HandlerView, h: HandlerView, key: KeyCode) -> ConflictView {
    ConflictView {
        key,
        handler1: e.id,
        handler2: h.id,
        priority1: e.priority,
        priority2: h.priority,
        context1: e.context,
        context2: h.context,
    }
}

/// The conflicts recorded when `h` joins the handlers `existing` on `key`,
/// one per existing handler, in their order.
pub open spec fn conflicts_with(existing: Seq<HandlerView>, h: HandlerView, key: KeyCode) -> Seq<ConflictView> {
    Seq::new(existing.len(), |i: int| conflict_of(existing[i], h, key))
}

/// Some binding is for `key`.
pub open spec fn key_bound(bs: Seq<BindingView>, key: KeyCode) -> bool {
    exists|i: int| 0 <= i < bs.len() && #[trigger] bs[i].key == key
}

/// The binding for `key` (meaningful when `key_bound`).
pub open spec fn binding_index(bs: Seq<BindingView>, key: KeyCode) -> int {
    choose|i: int| 0 <= i < bs.len() && #[trigger] bs[i].key == key
}

/// Bindings and conflicts after binding `h` to `key`: it joins the key's
/// handlers in priority order, with one conflict per handler already there,
/// or the key gets a new binding of its own at the end.
pub open spec fn bind_key(
    bs: Seq<BindingView>,
    cs: Seq<ConflictView>,
    h: HandlerView,
    key: KeyCode,
) -> (Seq<BindingView>, Seq<ConflictView>) {
    if key_bound(bs, key) {
        let i = binding_index(bs, key);
        (
            bs.update(i, BindingView { key, handlers: insert_by_priority(bs[i].handlers, h) }),
            cs + conflicts_with(bs[i].handlers, h, key),
        )
    } else {
        (bs.push(BindingView { key, handlers: seq![h] }), cs)
    }
}

/// Bindings and conflicts after binding `h` to each of `keys` in turn.
pub open spec fn bind_keys(
    bs: Seq<BindingView>,
    cs: Seq<ConflictView>,
    h: HandlerView,
    keys: Seq<KeyCode>,
) -> (Seq<BindingView>, Seq<ConflictView>)
    decreases keys.len(),
{
    if keys.len() == 0 {
        (bs, cs)
    } else {
        let st = bind_keys(bs, cs, h, keys.drop_last());
        bind_key(st.0, st.1, h, keys.last())
    }
}

/// The registry after registering `h`, whose id is new.
pub open spec fn registered_after(r: RegistryView, h: HandlerView) -> RegistryView {
    let st = bind_keys(r.bindings, r.conflicts, h, h.keys);
    RegistryView { bindings: st.0, registered: r.registered.push(h.id), conflicts: st.1, debug_logging: r.debug_logging }
}

/// The refusal of a second handler with the id `id`.
pub open spec fn already_registered_message(id: Seq<char>) -> Seq<char> {
    "Handler with ID '"@ + id + "' is already registered"@
}

/// Every binding is for a different key.
pub open spec fn keys_distinct(bs: Seq<BindingView>) -> bool {
    forall|i: int, j: int| 0 <= i < j < bs.len() ==> #[trigger] bs[i].key != #[trigger] bs[j].key
}

/// `hs` without the handlers whose id is `id`, in order.
pub open spec fn without_handler(hs: Seq<HandlerView>, id: Seq<char>) -> Seq<HandlerView>
    decreases hs.len(),
{
    if hs.len() == 0 {
        seq![]
    } else {
        let rest = without_handler(hs.drop_last(), id);
        if hs.last().id == id {
            rest
        } else {
            rest.push(hs.last())
        }
    }
}

/// `bs` with the handler `id` removed from every binding and the bindings
/// left empty dropped.
pub open spec fn strip_bindings(bs: Seq<BindingView>, id: Seq<char>) -> Seq<BindingView>
    decreases bs.len(),
{
    if bs.len() == 0 {
        seq![]
    } else {
        let rest = strip_bindings(bs.drop_last(), id);
        let kept = without_handler(bs.last().handlers, id);
        if kept.len() == 0 {
            rest
        } else {
            rest.push(BindingView { key: bs.last().key, handlers: kept })
        }
    }
}

/// `ids` without `id`.
pub open spec fn without_id(ids: Seq<Seq<char>>, id: Seq<char>) -> Seq<Seq<char>>
    decreases ids.len(),
{
    if ids.len() == 0 {
        seq![]
    } else {
        let rest = without_id(ids.drop_last(), id);
        if ids.last() == id {
            rest
        } else {
            rest.push(ids.last())
        }
    }
}

/// The conflict names the handler `id`.
pub open spec fn mentions(c: ConflictView, id: Seq<char>) -> bool {
    c.handler1 == id || c.handler2 == id
}

/// `cs` without the conflicts that name `id`.
pub open spec fn conflicts_without(cs: Seq<ConflictView>, id: Seq<char>) -> Seq<ConflictView>
    decreases cs.len(),
{
    if cs.len() == 0 {
        seq![]
    } else {
        let rest = conflicts_without(cs.drop_last(), id);
        if mentions(cs.last(), id) {
            rest
        } else {
            rest.push(cs.last())
        }
    }
}

/// The registry after removing the registered handler `id` from its keys,
/// its id and its conflicts.
pub open spec fn unregistered_after(r: RegistryView, id: Seq<char>) -> RegistryView {
    RegistryView {
        bindings: strip_bindings(r.bindings, id),
        registered: without_id(r.registered, id),
        conflicts: conflicts_without(r.conflicts, id),
        debug_logging: r.debug_logging,
    }
}

/// The refusal to remove an unknown handler.
pub open spec fn not_registered_message(id: Seq<char>) -> Seq<char> {
    "Handler '"@ + id + "' is not registered"@
}

/// The handlers bound to `key`, highest priority first; none when the key is unbound.
pub open spec fn handlers_for(r: RegistryView, key: KeyCode) -> Seq<HandlerView> {
    if key_bound(r.bindings, key) {
        r.bindings[binding_index(r.bindings, key)].handlers
    } else {
        seq![]
    }
}

/// How many of `hs` serve the context `c`.
pub open spec fn count_context(hs: Seq<HandlerView>, c: InputContext) -> nat
    decreases hs.len(),
{
    if hs.len() == 0 {
        0
    } else {
        count_context(hs.drop_last(), c) + if hs.last().context == c {
            1nat
        } else {
            0nat
        }
    }
}

/// How many handler entries, over all bindings, serve the context `c`.
pub open spec fn context_entries(bs: Seq<BindingView>, c: InputContext) -> nat
    decreases bs.len(),
{
    if bs.len() == 0 {
        0
    } else {
        context_entries(bs.drop_last(), c) + count_context(bs.last().handlers, c)
    }
}

/// `n`, or the largest `usize` when it does not fit.
pub open spec fn capped(n: nat) -> usize {
    if n <= usize::MAX {
        n as usize
    } else {
        usize::MAX
    }
}

/// One line of the binding summary: the handler's id and priority.
pub open spec fn summary_entry(h: HandlerView) -> Seq<char> {
    h.id + " (p:"@ + decimal_text(h.priority as nat) + ")"@
}

/// Every binding is for a different key, none is empty, each is ordered by
/// priority, and each handler in them has its id in `ids`.
pub open spec fn bindings_ok(bs: Seq<BindingView>, ids: Seq<Seq<char>>) -> bool {
    &&& keys_distinct(bs)
    &&& forall|i: int| 0 <= i < bs.len() ==> #[trigger] bs[i].handlers.len() > 0
    &&& forall|i: int| 0 <= i < bs.len() ==> sorted_by_priority(#[trigger] bs[i].handlers)
    &&& forall|i: int, k: int|
        0 <= i < bs.len() && 0 <= k < bs[i].handlers.len() ==> ids.contains(#[trigger] bs[i].handlers[k].id)
}

/// Every conflict names two handlers whose ids are in `ids`.
pub open spec fn conflicts_ok(cs: Seq<ConflictView>, ids: Seq<Seq<char>>) -> bool {
    forall|c: int| 0 <= c < cs.len() ==> ids.contains(#[trigger] cs[c].handler1) && ids.contains(cs[c].handler2)
}

/// The registry's invariant: one binding per key, none empty, each ordered by
/// priority; ids registered once; every handler and conflict names a
/// registered handler.
pub open spec fn registry_wf(r: RegistryView) -> bool {
    &&& bindings_ok(r.bindings, r.registered)
    &&& conflicts_ok(r.conflicts, r.registered)
    &&& r.registered.no_duplicates()
}

/// A conflict between two handlers on one key.
#[derive(Debug, Clone)]
pub struct InputConflict {
    pub key: KeyCode,
    pub handler1: String,
    pub handler2: String,
    pub priority1: u8,
    pub priority2: u8,
    pub context1: InputContext,
    pub context2: InputContext,
}

impl View for InputConflict {
    type V = ConflictView;

    open spec fn view(&self) -> ConflictView {
        ConflictView {
            key: self.key,
            handler1: self.handler1@,
            handler2: self.handler2@,
            priority1: self.priority1,
            priority2: self.priority2,
            context1: self.context1,
            context2: self.context2,
        }
    }
}

/// A key and its handlers.
struct KeyBinding {
    key: KeyCode,
    handlers: Vec<InputHandler>,
}

impl View for KeyBinding {
    type V = BindingView;

    closed spec fn view(&self) -> BindingView {
        BindingView { key: self.key, handlers: self.handlers@.map_values(|h: InputHandler| h@) }
    }
}

/// All key handlers of the game, grouped by key and ordered by priority, with
/// the conflicts found between them.
pub struct InputMappingRegistry {
    bindings: Vec<KeyBinding>,
    registered_handlers: Vec<String>,
    conflicts: Vec<InputConflict>,
    debug_logging: bool,
}

impl View for InputMappingRegistry {
    type V = RegistryView;

    closed spec fn view(&self) -> RegistryView {
        RegistryView {
            bindings: self.bindings@.map_values(|b: KeyBinding| b@),
            registered: self.registered_handlers@.map_values(|s: String| s@),
            conflicts: self.conflicts@.map_values(|c: InputConflict| c@),
            debug_logging: self.debug_logging,
        }
    }
}

impl Default for InputMappingRegistry {
    fn default() -> (r: Self)
        ensures
            r@ == (RegistryView { bindings: seq![], registered: seq![], conflicts: seq![], debug_logging: false }),
    {
        InputMappingRegistry::new()
    }
}

/// Counts of registered handler entries per context.
#[derive(Debug, Clone, Copy, PartialEq, Eq, Structural)]
pub struct ContextCounts {
    pub game: usize,
    pub debug: usize,
    pub ui: usize,
    pub admin: usize,
    pub system: usize,
}

/// Figures about the registry.
#[derive(Debug, Clone, Copy, PartialEq, Eq, Structural)]
pub struct InputRegistryStats {
    pub total_handlers: usize,
    pub total_keys: usize,
    pub total_conflicts: usize,
    /// Handler entries per context, a handler counted once for each key it is bound to.
    pub handlers_by_context: ContextCounts,
}

impl InputMappingRegistry {
    /// An empty registry with debug logging off.
    pub fn new() -> (r: Self)
        ensures
            r@ == (RegistryView { bindings: seq![], registered: seq![], conflicts: seq![], debug_logging: false }),
            registry_wf(r@),
    {
        let r = InputMappingRegistry {
            bindings: Vec::new(),
            registered_handlers: Vec::new(),
            conflicts: Vec::new(),
            debug_logging: false,
        };
        assert(r@.bindings =~= seq![]);
        assert(r@.registered =~= seq![]);
        assert(r@.conflicts =~= seq![]);
        r
    }

    pub fn set_debug_logging(&mut self, enabled: bool)
        ensures
            final(self)@ == (RegistryView { debug_logging: enabled, ..old(self)@ }),
    {
        self.debug_logging = enabled;
    }

    pub fn is_debug_logging(&self) -> (r: bool)
        ensures
            r == self@.debug_logging,
    {
        self.debug_logging
    }

    /// Whether a handler with the id `id` is registered.
    pub fn is_registered(&self, id: &str) -> (r: bool)
        ensures
            r == self@.registered.contains(id@),
    {
        let target = id.to_owned();
        let mut i: usize = 0;
        while i < self.registered_handlers.len()
            invariant
                i <= self.registered_handlers.len(),
                target@ == id@,
                forall|j: int| 0 <= j < i ==> self@.registered[j] != id@,
            decreases self.registered_handlers.len() - i,
        {
            if self.registered_handlers[i] == target {
                assert(self@.registered[i as int] == id@);
                return true;
            }
            i += 1;
        }
        false
    }

    /// The position of the binding for `key`, or the number of bindings when
    /// the key is unbound.
    fn find_binding(&self, key: KeyCode) -> (r: usize)
        ensures
            r <= self@.bindings.len(),
            r < self@.bindings.len() ==> self@.bindings[r as int].key == key,
            r == self@.bindings.len() ==> !key_bound(self@.bindings, key),
    {
        let mut i: usize = 0;
        while i < self.bindings.len()
            invariant
                i <= self.bindings.len(),
                forall|j: int| 0 <= j < i ==> self@.bindings[j].key != key,
            decreases self.bindings.len() - i,
        {
            if self.bindings[i].key == key {
                return i;
            }
            i += 1;
        }
        i
    }

    /// Binds `handler` to `key`, recording a conflict with each handler
    /// already bound to it.
    fn register_key_handler(&mut self, key: KeyCode, handler: &InputHandler)
        requires
            keys_distinct(old(self)@.bindings),
        ensures
            (final(self)@.bindings, final(self)@.conflicts) == bind_key(
                old(self)@.bindings,
                old(self)@.conflicts,
                handler@,
                key,
            ),
            final(self)@.registered == old(self)@.registered,
            final(self)@.debug_logging == old(self)@.debug_logging,
    {
        let ghost r0 = self@;
        let i = self.find_binding(key);
        if i < self.bindings.len() {
            proof {
                lemma_binding_index_is(r0.bindings, key, i as int);
            }
            let ghost hs = r0.bindings[i as int].handlers;
            let ghost extra = conflicts_with(hs, handler@, key);
            let n = self.bindings[i].handlers.len();
            let mut j: usize = 0;
            while j < n
                invariant
                    j <= n,
                    i < self.bindings.len(),
                    n == self.bindings@[i as int].handlers.len(),
                    self@.bindings == r0.bindings,
                    self@.registered == r0.registered,
                    self@.debug_logging == r0.debug_logging,
                    hs == r0.bindings[i as int].handlers,
                    extra == conflicts_with(hs, handler@, key),
                    self@.conflicts == r0.conflicts + extra.take(j as int),
                decreases n - j,
            {
                let e = &self.bindings[i].handlers[j];
                assert(e@ == hs[j as int]);
                let c = InputConflict {
                    key,
                    handler1: e.id.clone(),
                    handler2: handler.id.clone(),
                    priority1: e.priority,
                    priority2: handler.priority,
                    context1: e.context,
                    context2: handler.context,
                };
                assert(c@ == extra[j as int]);
                let ghost before = self@.conflicts;
                let ghost cv = c@;
                self.conflicts.push(c);
                assert(self@.conflicts =~= before.push(cv));
                assert(extra.take(j + 1) =~= extra.take(j as int).push(extra[j as int]));
                j += 1;
                assert(self@.conflicts =~= r0.conflicts + extra.take(j as int));
            }
            assert(extra.take(n as int) =~= extra);
            let mut p: usize = 0;
            while p < n && self.bindings[i].handlers[p].priority >= handler.priority
                invariant
                    p <= n,
                    i < self.bindings.len(),
                    n == self.bindings@[i as int].handlers.len(),
                    self@.bindings == r0.bindings,
                    hs == r0.bindings[i as int].handlers,
                    forall|q: int| 0 <= q < p ==> #[trigger] hs[q].priority >= handler@.priority,
                decreases n - p,
            {
                p += 1;
            }
            proof {
                lemma_priority_slot_is(hs, handler@.priority, p as int);
            }
            let ghost conflicts_now = self@.conflicts;
            let mut b = self.bindings.remove(i);
            let dup = handler.duplicate();
            b.handlers.insert(p, dup);
            assert(b@.handlers =~= insert_by_priority(hs, handler@));
            self.bindings.insert(i, b);
            assert(self@.bindings =~= r0.bindings.update(
                i as int,
                BindingView { key, handlers: insert_by_priority(hs, handler@) },
            ));
            assert(self@.conflicts == conflicts_now);
        } else {
            let mut hs: Vec<InputHandler> = Vec::new();
            hs.push(handler.duplicate());
            let b = KeyBinding { key, handlers: hs };
            assert(b@.handlers =~= seq![handler@]);
            self.bindings.push(b);
            assert(self@.bindings =~= r0.bindings.push(BindingView { key, handlers: seq![handler@] }));
            assert(self@.conflicts =~= r0.conflicts);
        }
    }

    /// The handlers of `key`, highest priority first, or `None` when no
    /// handler is bound to it.
    pub fn get_handlers_for_key(&self, key: KeyCode) -> (r: Option<&Vec<InputHandler>>)
        requires
            registry_wf(self@),
        ensures
            match r {
                Option::Some(v) => key_bound(self@.bindings, key) && v@.map_values(|h: InputHandler| h@)
                    == handlers_for(self@, key),
                Option::None => !key_bound(self@.bindings, key),
            },
    {
        let i = self.find_binding(key);
        if i < self.bindings.len() {
            proof {
                lemma_binding_index_is(self@.bindings, key, i as int);
            }
            Option::Some(&self.bindings[i].handlers)
        } else {
            Option::None
        }
    }

    /// One step of serving a key press: after a handler consumed the key,
    /// nothing more is tried (`None`); otherwise the next handler of `key`,
    /// from position `from` on in serving order, that handles the key, with
    /// its position, or `None` when none is left.
    pub fn process_input_step(&self, key: KeyCode, from: usize, consumed: bool) -> (r: Option<(usize, &InputHandler)>)
        requires
            registry_wf(self@),
        ensures
            consumed ==> r is None,
            !consumed ==> match r {
                Option::Some((j, h)) => from <= j < handlers_for(self@, key).len() && h@ == handlers_for(self@, key)[j as int]
                    && handlers_for(self@, key)[j as int].keys.contains(key) && forall|i: int|
                    from <= i < j ==> !(#[trigger] handlers_for(self@, key)[i]).keys.contains(key),
                Option::None => forall|i: int|
                    from <= i < handlers_for(self@, key).len() ==> !(#[trigger] handlers_for(self@, key)[i]).keys.contains(key),
            },
    {
        if consumed {
            return Option::None;
        }
        match self.get_handlers_for_key(key) {
            Option::Some(handlers) => {
                let ghost hs = handlers_for(self@, key);
                assert(handlers@.len() == hs.len());
                let mut j = from;
                while j < handlers.len()
                    invariant
                        handlers@.map_values(|h: InputHandler| h@) == hs,
                        handlers@.len() == hs.len(),
                        hs == handlers_for(self@, key),
                        !consumed,
                        from <= j,
                        forall|i: int| from <= i < j ==> !(#[trigger] hs[i]).keys.contains(key),
                    decreases handlers.len() - j,
                {
                    assert(handlers@[j as int]@ == hs[j as int]);
                    if handlers[j].handles_key(key) {
                        return Option::Some((j, &handlers[j]));
                    }
                    j += 1;
                }
                Option::None
            },
            Option::None => {
                assert(handlers_for(self@, key) =~= seq![]);
                Option::None
            },
        }
    }

    /// The handler served first for `key`, or `None` when no handler is bound to it.
    pub fn get_primary_handler(&self, key: KeyCode) -> (r: Option<&InputHandler>)
        requires
            registry_wf(self@),
        ensures
            match r {
                Option::Some(h) => key_bound(self@.bindings, key) && h@ == handlers_for(self@, key)[0],
                Option::None => !key_bound(self@.bindings, key),
            },
    {
        let i = self.find_binding(key);
        if i < self.bindings.len() {
            proof {
                lemma_binding_index_is(self@.bindings, key, i as int);
                assert(self@.bindings[i as int].handlers.len() > 0);
            }
            Option::Some(&self.bindings[i].handlers[0])
        } else {
            Option::None
        }
    }

    /// The conflicts found so far, in the order they were found.
    pub fn get_conflicts(&self) -> (r: &[InputConflict])
        ensures
            r@.map_values(|c: InputConflict| c@) == self@.conflicts,
    {
        self.conflicts.as_slice()
    }

    /// Every bound key with its handlers as "id (p:priority)", highest
    /// priority first; keys in the order they were first bound.
    pub fn get_binding_summary(&self) -> (r: Vec<(KeyCode, Vec<String>)>)
        ensures
            r@.len() == self@.bindings.len(),
            forall|i: int|
                0 <= i < r@.len() ==> (#[trigger] r@[i]).0 == self@.bindings[i].key && r@[i].1@.map_values(
                    |s: String| s@,
                ) == self@.bindings[i].handlers.map_values(|h: HandlerView| summary_entry(h)),
    {
        let mut r: Vec<(KeyCode, Vec<String>)> = Vec::new();
        let mut i: usize = 0;
        while i < self.bindings.len()
            invariant
                i <= self.bindings.len(),
                r@.len() == i,
                forall|a: int|
                    0 <= a < i ==> (#[trigger] r@[a]).0 == self@.bindings[a].key && r@[a].1@.map_values(
                        |s: String| s@,
                    ) == self@.bindings[a].handlers.map_values(|h: HandlerView| summary_entry(h)),
            decreases self.bindings.len() - i,
        {
            let hs = &self.bindings[i].handlers;
            let ghost hv = self@.bindings[i as int].handlers;
            let mut lines: Vec<String> = Vec::new();
            let mut j: usize = 0;
            while j < hs.len()
                invariant
                    j <= hs.len(),
                    hv == hs@.map_values(|h: InputHandler| h@),
                    lines@.len() == j,
                    forall|b: int| 0 <= b < j ==> (#[trigger] lines@[b])@ == summary_entry(hv[b]),
                decreases hs.len() - j,
            {
                let mut line = hs[j].id.clone();
                line.append(" (p:");
                let digits = decimal_string(hs[j].priority as usize);
                line.append(digits.as_str());
                line.append(")");
                proof {
                    reveal_strlit(" (p:");
                    reveal_strlit(")");
                }
                assert(line@ == summary_entry(hv[j as int]));
                lines.push(line);
                j += 1;
            }
            assert(lines@.map_values(|s: String| s@) =~= hv.map_values(|h: HandlerView| summary_entry(h)));
            r.push((self.bindings[i].key, lines));
            i += 1;
        }
        r
    }

    /// Handler, key and conflict counts, and the handler entries per context.
    pub fn get_stats(&self) -> (r: InputRegistryStats)
        ensures
            r.total_handlers == self@.registered.len(),
            r.total_keys == self@.bindings.len(),
            r.total_conflicts == self@.conflicts.len(),
            r.handlers_by_context == (ContextCounts {
                game: capped(context_entries(self@.bindings, InputContext::Game)),
                debug: capped(context_entries(self@.bindings, InputContext::Debug)),
                ui: capped(context_entries(self@.bindings, InputContext::UI)),
                admin: capped(context_entries(self@.bindings, InputContext::Admin)),
                system: capped(context_entries(self@.bindings, InputContext::System)),
            }),
    {
        InputRegistryStats {
            total_handlers: self.registered_handlers.len(),
            total_keys: self.bindings.len(),
            total_conflicts: self.conflicts.len(),
            handlers_by_context: ContextCounts {
                game: self.count_entries(InputContext::Game),
                debug: self.count_entries(InputContext::Debug),
                ui: self.count_entries(InputContext::UI),
                admin: self.count_entries(InputContext::Admin),
                system: self.count_entries(InputContext::System),
            },
        }
    }

    fn count_entries(&self, c: InputContext) -> (r: usize)
        ensures
            r == capped(context_entries(self@.bindings, c)),
    {
        let ghost bv = self@.bindings;
        let mut total: usize = 0;
        let mut i: usize = 0;
        while i < self.bindings.len()
            invariant
                i <= self.bindings.len(),
                bv == self@.bindings,
                total == capped(context_entries(bv.take(i as int), c)),
            decreases self.bindings.len() - i,
        {
            let hs = &self.bindings[i].handlers;
            let ghost hv = bv[i as int].handlers;
            let mut n: usize = 0;
            let mut j: usize = 0;
            while j < hs.len()
                invariant
                    j <= hs.len(),
                    hv == hs@.map_values(|h: InputHandler| h@),
                    n == count_context(hv.take(j as int), c),
                    n <= j,
                decreases hs.len() - j,
            {
                assert(hv.take(j + 1).drop_last() =~= hv.take(j as int));
                if hs[j].context == c {
                    n += 1;
                }
                j += 1;
            }
            assert(hv.take(hs.len() as int) =~= hv);
            assert(bv.take(i + 1).drop_last() =~= bv.take(i as int));
            total = total.saturating_add(n);
            i += 1;
        }
        assert(bv.take(self.bindings.len() as int) =~= bv);
        total
    }

    /// Removes the handler `handler_id` from every key (dropping keys left
    /// without handlers), from the registered ids and from every conflict
    /// that names it; an id that is not registered is refused and the
    /// registry left unchanged.
    pub fn unregister_handler(&mut self, handler_id: &str) -> (r: Result<(), String>)
        requires
            registry_wf(old(self)@),
        ensures
            registry_wf(final(self)@),
            match r {
                Result::Ok(_) => old(self)@.registered.contains(handler_id@) && final(self)@ == unregistered_after(
                    old(self)@,
                    handler_id@,
                ),
                Result::Err(msg) => !old(self)@.registered.contains(handler_id@) && msg@ == not_registered_message(
                    handler_id@,
                ) && final(self)@ == old(self)@,
            },
    {
        if !self.is_registered(handler_id) {
            let mut msg = String::from_str("Handler '");
            msg.append(handler_id);
            msg.append("' is not registered");
            proof {
                reveal_strlit("Handler '");
                reveal_strlit("' is not registered");
            }
            return Result::Err(msg);
        }
        let ghost r0 = self@;
        let ghost id = handler_id@;
        let target = handler_id.to_owned();
        let bindings = strip_binding_vec(&self.bindings, &target);
        let registered = without_id_vec(&self.registered_handlers, &target);
        let conflicts = conflicts_without_vec(&self.conflicts, &target);
        self.bindings = bindings;
        self.registered_handlers = registered;
        self.conflicts = conflicts;
        proof {
            lemma_unregister_keeps_wf(r0, id);
        }
        Result::Ok(())
    }

    /// Removes every handler, binding and conflict; debug logging stays as it was.
    pub fn clear(&mut self)
        ensures
            final(self)@ == (RegistryView {
                bindings: seq![],
                registered: seq![],
                conflicts: seq![],
                debug_logging: old(self)@.debug_logging,
            }),
            registry_wf(final(self)@),
    {
        self.bindings = Vec::new();
        self.registered_handlers = Vec::new();
        self.conflicts = Vec::new();
        assert(self@.bindings =~= seq![]);
        assert(self@.registered =~= seq![]);
        assert(self@.conflicts =~= seq![]);
    }

    /// Registers `handler` for each of its keys. A handler whose id is
    /// already registered is refused and the registry left unchanged; a
    /// handler that shares a key with others is accepted, joins them in
    /// priority order (after those of equal priority) and the conflicts are
    /// recorded.
    pub fn register_handler(&mut self, handler: InputHandler) -> (r: Result<(), String>)
        requires
            registry_wf(old(self)@),
        ensures
            registry_wf(final(self)@),
            match r {
                Result::Ok(_) => !old(self)@.registered.contains(handler@.id) && final(self)@ == registered_after(
                    old(self)@,
                    handler@,
                ),
                Result::Err(msg) => old(self)@.registered.contains(handler@.id) && msg@
                    == already_registered_message(handler@.id) && final(self)@ == old(self)@,
            },
    {
        if self.is_registered(handler.get_id()) {
            let mut msg = String::from_str("Handler with ID '");
            msg.append(handler.get_id());
            msg.append("' is already registered");
            proof {
                reveal_strlit("Handler with ID '");
                reveal_strlit("' is already registered");
            }
            return Result::Err(msg);
        }
        let ghost r0 = self@;
        let ghost h = handler@;
        let ghost ids = r0.registered.push(h.id);
        proof {
            lemma_ok_grow(r0.bindings, r0.conflicts, r0.registered, h.id);
            assert(ids.contains(h.id)) by {
                assert(ids[r0.registered.len() as int] == h.id);
            }
            assert(h.keys.take(0) =~= seq![]);
        }
        let mut k: usize = 0;
        while k < handler.keys.len()
            invariant
                k <= handler.keys.len(),
                h == handler@,
                ids == r0.registered.push(h.id),
                ids.contains(h.id),
                bindings_ok(r0.bindings, ids),
                conflicts_ok(r0.conflicts, ids),
                (self@.bindings, self@.conflicts) == bind_keys(r0.bindings, r0.conflicts, h, h.keys.take(k as int)),
                self@.registered == r0.registered,
                self@.debug_logging == r0.debug_logging,
            decreases handler.keys.len() - k,
        {
            proof {
                lemma_bind_keys_ok(r0.bindings, r0.conflicts, h, h.keys.take(k as int), ids);
            }
            let key = handler.keys[k];
            self.register_key_handler(key, &handler);
            proof {
                assert(h.keys.take(k + 1).drop_last() =~= h.keys.take(k as int));
                assert(h.keys.take(k + 1).last() == key);
            }
            k += 1;
        }
        assert(h.keys.take(handler.keys.len() as int) =~= h.keys);
        proof {
            lemma_bind_keys_ok(r0.bindings, r0.conflicts, h, h.keys, ids);
        }
        let id = handler.id.clone();
        self.registered_handlers.push(id);
        assert(self@.registered =~= ids);
        proof {
            assert forall|a: int, b: int| 0 <= a < b < ids.len() implies ids[a] != ids[b] by {
                if b == r0.registered.len() {
                    assert(r0.registered.contains(r0.registered[a]));
                }
            }
        }
        Result::Ok(())
    }
}

proof fn lemma_priority_slot_is(s: Seq<HandlerView>, priority: u8, p: int)
    requires
        is_priority_slot(s, priority, p),
    ensures
        priority_slot(s, priority) == p,
{
    let c = priority_slot(s, priority);
    assert(is_priority_slot(s, priority, c));
    if c < p {
        assert(s[c].priority >= priority);
    } else if c > p {
        assert(s[p].priority >= priority);
    }
}

proof fn lemma_priority_slot_exists(s: Seq<HandlerView>, priority: u8)
    ensures
        exists|i: int| is_priority_slot(s, priority, i),
    decreases s.len(),
{
    if s.len() > 0 {
        let t = s.drop_last();
        lemma_priority_slot_exists(t, priority);
        let i0 = choose|i: int| is_priority_slot(t, priority, i);
        assert(forall|j: int| 0 <= j < t.len() ==> t[j] == s[j]);
        if i0 < t.len() {
            assert(is_priority_slot(s, priority, i0));
        } else if s[t.len() as int].priority < priority {
            assert(is_priority_slot(s, priority, t.len() as int));
        } else {
            assert(is_priority_slot(s, priority, s.len() as int));
        }
    } else {
        assert(is_priority_slot(s, priority, 0));
    }
}

/// Where the slot is: after every handler of at least the priority, before
/// every handler of lower priority.
proof fn lemma_priority_slot(s: Seq<HandlerView>, priority: u8)
    ensures
        is_priority_slot(s, priority, priority_slot(s, priority)),
{
    lemma_priority_slot_exists(s, priority);
}

/// Inserting at the slot keeps a list ordered by priority.
proof fn lemma_insert_keeps_sorted(s: Seq<HandlerView>, h: HandlerView)
    requires
        sorted_by_priority(s),
    ensures
        sorted_by_priority(insert_by_priority(s, h)),
        insert_by_priority(s, h).len() == s.len() + 1,
        forall|k: int|
            0 <= k < insert_by_priority(s, h).len() ==> #[trigger] insert_by_priority(s, h)[k] == h || s.contains(
                insert_by_priority(s, h)[k],
            ),
{
    lemma_priority_slot(s, h.priority);
    let p = priority_slot(s, h.priority);
    let t = insert_by_priority(s, h);
    assert forall|i: int, j: int| 0 <= i < j < t.len() implies #[trigger] t[i].priority >= #[trigger] t[j].priority by {
        if j < p {
        } else if j == p {
            assert(t[i] == s[i]);
        } else if i < p {
            assert(t[j] == s[j - 1]);
            assert(s[p].priority < h.priority);
        } else if i == p {
            assert(t[j] == s[j - 1]);
            assert(s[p].priority >= s[j - 1].priority);
        } else {
            assert(t[i] == s[i - 1]);
            assert(t[j] == s[j - 1]);
        }
    }
    assert forall|k: int| 0 <= k < t.len() implies #[trigger] t[k] == h || s.contains(t[k]) by {
        if k < p {
            assert(t[k] == s[k]);
        } else if k > p {
            assert(t[k] == s[k - 1]);
        }
    }
}

proof fn lemma_binding_index_is(bs: Seq<BindingView>, key: KeyCode, i: int)
    requires
        keys_distinct(bs),
        0 <= i < bs.len(),
        bs[i].key == key,
    ensures
        key_bound(bs, key),
        binding_index(bs, key) == i,
{
    assert(bs[i].key == key);
    let c = binding_index(bs, key);
    if c != i {
        if c < i {
            assert(bs[c].key != bs[i].key);
        } else {
            assert(bs[i].key != bs[c].key);
        }
    }
}

/// A registry whose ids include `ids` keeps its bindings and conflicts
/// well formed when `ids` grows.
proof fn lemma_ok_grow(bs: Seq<BindingView>, cs: Seq<ConflictView>, ids: Seq<Seq<char>>, id: Seq<char>)
    requires
        bindings_ok(bs, ids),
        conflicts_ok(cs, ids),
    ensures
        bindings_ok(bs, ids.push(id)),
        conflicts_ok(cs, ids.push(id)),
{
    assert forall|x: Seq<char>| ids.contains(x) implies ids.push(id).contains(x) by {
        let k = choose|k: int| 0 <= k < ids.len() && ids[k] == x;
        assert(ids.push(id)[k] == x);
    }
}

/// Binding a handler whose id is among `ids` keeps bindings and conflicts
/// well formed.
proof fn lemma_bind_key_ok(bs: Seq<BindingView>, cs: Seq<ConflictView>, h: HandlerView, key: KeyCode, ids: Seq<Seq<char>>)
    requires
        bindings_ok(bs, ids),
        conflicts_ok(cs, ids),
        ids.contains(h.id),
    ensures
        bindings_ok(bind_key(bs, cs, h, key).0, ids),
        conflicts_ok(bind_key(bs, cs, h, key).1, ids),
{
    let r = bind_key(bs, cs, h, key);
    if key_bound(bs, key) {
        let i = binding_index(bs, key);
        let old_hs = bs[i].handlers;
        lemma_insert_keeps_sorted(old_hs, h);
        let nb = r.0;
        assert forall|a: int, b: int| 0 <= a < b < nb.len() implies #[trigger] nb[a].key != #[trigger] nb[b].key by {
            assert(nb[a].key == bs[a].key);
            assert(nb[b].key == bs[b].key);
        }
        assert forall|a: int, k: int|
            0 <= a < nb.len() && 0 <= k < nb[a].handlers.len() implies ids.contains(#[trigger] nb[a].handlers[k].id) by {
            if a == i {
                let t = insert_by_priority(old_hs, h);
                assert(t[k] == h || old_hs.contains(t[k]));
                if t[k] != h {
                    let m = choose|m: int| 0 <= m < old_hs.len() && old_hs[m] == t[k];
                    assert(ids.contains(bs[i].handlers[m].id));
                }
            } else {
                assert(nb[a] == bs[a]);
                assert(ids.contains(bs[a].handlers[k].id));
            }
        }
        assert forall|a: int| 0 <= a < nb.len() implies #[trigger] nb[a].handlers.len() > 0 by {
            if a != i {
                assert(nb[a] == bs[a]);
            }
        }
        assert forall|a: int| 0 <= a < nb.len() implies sorted_by_priority(#[trigger] nb[a].handlers) by {
            if a != i {
                assert(nb[a] == bs[a]);
            }
        }
        let nc = r.1;
        let extra = conflicts_with(old_hs, h, key);
        assert forall|c: int| 0 <= c < nc.len() implies ids.contains(#[trigger] nc[c].handler1) && ids.contains(
            nc[c].handler2,
        ) by {
            if c < cs.len() {
                assert(nc[c] == cs[c]);
            } else {
                let m = c - cs.len();
                assert(nc[c] == extra[m]);
                assert(ids.contains(bs[i].handlers[m].id));
            }
        }
    } else {
        let nb = r.0;
        assert forall|a: int, b: int| 0 <= a < b < nb.len() implies #[trigger] nb[a].key != #[trigger] nb[b].key by {
            if b == bs.len() {
                assert(nb[a] == bs[a]);
            } else {
                assert(nb[a] == bs[a]);
                assert(nb[b] == bs[b]);
            }
        }
        assert forall|a: int, k: int|
            0 <= a < nb.len() && 0 <= k < nb[a].handlers.len() implies ids.contains(#[trigger] nb[a].handlers[k].id) by {
            if a < bs.len() {
                assert(nb[a] == bs[a]);
            }
        }
        assert forall|a: int| 0 <= a < nb.len() implies #[trigger] nb[a].handlers.len() > 0 by {
            if a < bs.len() {
                assert(nb[a] == bs[a]);
            }
        }
        assert forall|a: int| 0 <= a < nb.len() implies sorted_by_priority(#[trigger] nb[a].handlers) by {
            if a < bs.len() {
                assert(nb[a] == bs[a]);
            }
        }
    }
}

proof fn lemma_bind_keys_ok(bs: Seq<BindingView>, cs: Seq<ConflictView>, h: HandlerView, keys: Seq<KeyCode>, ids: Seq<Seq<char>>)
    requires
        bindings_ok(bs, ids),
        conflicts_ok(cs, ids),
        ids.contains(h.id),
    ensures
        bindings_ok(bind_keys(bs, cs, h, keys).0, ids),
        conflicts_ok(bind_keys(bs, cs, h, keys).1, ids),
    decreases keys.len(),
{
    if keys.len() > 0 {
        lemma_bind_keys_ok(bs, cs, h, keys.drop_last(), ids);
        let st = bind_keys(bs, cs, h, keys.drop_last());
        lemma_bind_key_ok(st.0, st.1, h, keys.last(), ids);
    }
}

fn without_handler_vec(hs: &Vec<InputHandler>, target: &String) -> (r: Vec<InputHandler>)
    ensures
        r@.map_values(|h: InputHandler| h@) == without_handler(hs@.map_values(|h: InputHandler| h@), target@),
{
    let ghost hv = hs@.map_values(|h: InputHandler| h@);
    let mut r: Vec<InputHandler> = Vec::new();
    let mut i: usize = 0;
    while i < hs.len()
        invariant
            i <= hs.len(),
            hv == hs@.map_values(|h: InputHandler| h@),
            r@.map_values(|h: InputHandler| h@) == without_handler(hv.take(i as int), target@),
        decreases hs.len() - i,
    {
        assert(hv.take(i + 1).drop_last() =~= hv.take(i as int));
        assert(hv.take(i + 1).last() == hs@[i as int]@);
        let ghost before = r@.map_values(|h: InputHandler| h@);
        if hs[i].id != *target {
            let d = hs[i].duplicate();
            r.push(d);
            assert(r@.map_values(|h: InputHandler| h@) =~= before.push(hs@[i as int]@));
        }
        i += 1;
    }
    assert(hv.take(hs.len() as int) =~= hv);
    r
}

fn strip_binding_vec(bs: &Vec<KeyBinding>, target: &String) -> (r: Vec<KeyBinding>)
    ensures
        r@.map_values(|b: KeyBinding| b@) == strip_bindings(bs@.map_values(|b: KeyBinding| b@), target@),
{
    let ghost bv = bs@.map_values(|b: KeyBinding| b@);
    let mut r: Vec<KeyBinding> = Vec::new();
    let mut i: usize = 0;
    while i < bs.len()
        invariant
            i <= bs.len(),
            bv == bs@.map_values(|b: KeyBinding| b@),
            r@.map_values(|b: KeyBinding| b@) == strip_bindings(bv.take(i as int), target@),
        decreases bs.len() - i,
    {
        assert(bv.take(i + 1).drop_last() =~= bv.take(i as int));
        assert(bv.take(i + 1).last() == bs@[i as int]@);
        let ghost before = r@.map_values(|b: KeyBinding| b@);
        let kept = without_handler_vec(&bs[i].handlers, target);
        if kept.len() > 0 {
            let b = KeyBinding { key: bs[i].key, handlers: kept };
            let ghost bview = b@;
            r.push(b);
            assert(r@.map_values(|b: KeyBinding| b@) =~= before.push(bview));
        }
        i += 1;
    }
    assert(bv.take(bs.len() as int) =~= bv);
    r
}

fn without_id_vec(ids: &Vec<String>, target: &String) -> (r: Vec<String>)
    ensures
        r@.map_values(|s: String| s@) == without_id(ids@.map_values(|s: String| s@), target@),
{
    let ghost iv = ids@.map_values(|s: String| s@);
    let mut r: Vec<String> = Vec::new();
    let mut i: usize = 0;
    while i < ids.len()
        invariant
            i <= ids.len(),
            iv == ids@.map_values(|s: String| s@),
            r@.map_values(|s: String| s@) == without_id(iv.take(i as int), target@),
        decreases ids.len() - i,
    {
        assert(iv.take(i + 1).drop_last() =~= iv.take(i as int));
        assert(iv.take(i + 1).last() == ids@[i as int]@);
        let ghost before = r@.map_values(|s: String| s@);
        if ids[i] != *target {
            let c = ids[i].clone();
            r.push(c);
            assert(r@.map_values(|s: String| s@) =~= before.push(ids@[i as int]@));
        }
        i += 1;
    }
    assert(iv.take(ids.len() as int) =~= iv);
    r
}

fn copy_conflict(c: &InputConflict) -> (r: InputConflict)
    ensures
        r@ == c@,
{
    InputConflict {
        key: c.key,
        handler1: c.handler1.clone(),
        handler2: c.handler2.clone(),
        priority1: c.priority1,
        priority2: c.priority2,
        context1: c.context1,
        context2: c.context2,
    }
}

fn conflicts_without_vec(cs: &Vec<InputConflict>, target: &String) -> (r: Vec<InputConflict>)
    ensures
        r@.map_values(|c: InputConflict| c@) == conflicts_without(cs@.map_values(|c: InputConflict| c@), target@),
{
    let ghost cv = cs@.map_values(|c: InputConflict| c@);
    let mut r: Vec<InputConflict> = Vec::new();
    let mut i: usize = 0;
    while i < cs.len()
        invariant
            i <= cs.len(),
            cv == cs@.map_values(|c: InputConflict| c@),
            r@.map_values(|c: InputConflict| c@) == conflicts_without(cv.take(i as int), target@),
        decreases cs.len() - i,
    {
        assert(cv.take(i + 1).drop_last() =~= cv.take(i as int));
        assert(cv.take(i + 1).last() == cs@[i as int]@);
        let ghost before = r@.map_values(|c: InputConflict| c@);
        if cs[i].handler1 != *target && cs[i].handler2 != *target {
            let c = copy_conflict(&cs[i]);
            r.push(c);
            assert(r@.map_values(|c: InputConflict| c@) =~= before.push(cs@[i as int]@));
        }
        i += 1;
    }
    assert(cv.take(cs.len() as int) =~= cv);
    r
}

proof fn lemma_without_handler(hs: Seq<HandlerView>, id: Seq<char>)
    ensures
        forall|k: int|
            #![trigger without_handler(hs, id)[k]]
            0 <= k < without_handler(hs, id).len() ==> without_handler(hs, id)[k].id != id && hs.contains(
                without_handler(hs, id)[k],
            ),
        sorted_by_priority(hs) ==> sorted_by_priority(without_handler(hs, id)),
    decreases hs.len(),
{
    if hs.len() > 0 {
        let t = hs.drop_last();
        lemma_without_handler(t, id);
        let rest = without_handler(t, id);
        let res = without_handler(hs, id);
        assert forall|k: int| #![trigger res[k]] 0 <= k < res.len() implies res[k].id != id && hs.contains(res[k]) by {
            if k < rest.len() {
                assert(res[k] == rest[k]);
                assert(rest[k].id != id && t.contains(rest[k]));
                let m = choose|m: int| 0 <= m < t.len() && t[m] == rest[k];
                assert(hs[m] == rest[k]);
            } else {
                assert(res[k] == hs[hs.len() - 1]);
            }
        }
        if sorted_by_priority(hs) {
            assert(sorted_by_priority(t)) by {
                assert forall|i: int, j: int| 0 <= i < j < t.len() implies #[trigger] t[i].priority >= #[trigger] t[j].priority by {
                    assert(t[i] == hs[i] && t[j] == hs[j]);
                }
            }
            assert forall|i: int, j: int| 0 <= i < j < res.len() implies #[trigger] res[i].priority >= #[trigger] res[j].priority by {
                if j < rest.len() {
                    assert(res[i] == rest[i] && res[j] == rest[j]);
                } else {
                    assert(res[i] == rest[i]);
                    let m = choose|m: int| 0 <= m < t.len() && t[m] == rest[i];
                    assert(hs[m] == rest[i]);
                    assert(res[j] == hs[hs.len() - 1]);
                }
            }
        }
    }
}

proof fn lemma_without_id(ids: Seq<Seq<char>>, id: Seq<char>)
    ensures
        forall|k: int|
            0 <= k < without_id(ids, id).len() ==> #[trigger] without_id(ids, id)[k] != id && ids.contains(
                without_id(ids, id)[k],
            ),
        forall|x: Seq<char>| ids.contains(x) && x != id ==> #[trigger] without_id(ids, id).contains(x),
        ids.no_duplicates() ==> without_id(ids, id).no_duplicates(),
    decreases ids.len(),
{
    if ids.len() > 0 {
        let t = ids.drop_last();
        lemma_without_id(t, id);
        let rest = without_id(t, id);
        let res = without_id(ids, id);
        assert forall|k: int| 0 <= k < res.len() implies #[trigger] res[k] != id && ids.contains(res[k]) by {
            if k < rest.len() {
                assert(res[k] == rest[k]);
                let m = choose|m: int| 0 <= m < t.len() && t[m] == rest[k];
                assert(ids[m] == rest[k]);
            } else {
                assert(res[k] == ids[ids.len() - 1]);
            }
        }
        assert forall|x: Seq<char>| ids.contains(x) && x != id implies #[trigger] res.contains(x) by {
            let m = choose|m: int| 0 <= m < ids.len() && ids[m] == x;
            if m < t.len() {
                assert(t[m] == x);
                assert(rest.contains(x));
                let q = choose|q: int| 0 <= q < rest.len() && rest[q] == x;
                assert(res[q] == x);
            } else {
                assert(res[res.len() - 1] == x);
            }
        }
        if ids.no_duplicates() {
            assert(t.no_duplicates()) by {
                assert forall|i: int, j: int| 0 <= i < t.len() && 0 <= j < t.len() && i != j implies t[i] != t[j] by {
                    assert(t[i] == ids[i] && t[j] == ids[j]);
                }
            }
            assert forall|i: int, j: int| 0 <= i < res.len() && 0 <= j < res.len() && i != j implies res[i] != res[j] by {
                if i < rest.len() && j < rest.len() {
                    assert(res[i] == rest[i] && res[j] == rest[j]);
                } else if i < rest.len() {
                    assert(res[i] == rest[i]);
                    let m = choose|m: int| 0 <= m < t.len() && t[m] == rest[i];
                    assert(ids[m] == rest[i]);
                    assert(res[j] == ids[ids.len() - 1]);
                } else {
                    assert(res[j] == rest[j]);
                    let m = choose|m: int| 0 <= m < t.len() && t[m] == rest[j];
                    assert(ids[m] == rest[j]);
                    assert(res[i] == ids[ids.len() - 1]);
                }
            }
        }
    }
}

proof fn lemma_conflicts_without(cs: Seq<ConflictView>, id: Seq<char>)
    ensures
        forall|k: int|
            0 <= k < conflicts_without(cs, id).len() ==> !mentions(#[trigger] conflicts_without(cs, id)[k], id)
                && cs.contains(conflicts_without(cs, id)[k]),
    decreases cs.len(),
{
    if cs.len() > 0 {
        let t = cs.drop_last();
        lemma_conflicts_without(t, id);
        let rest = conflicts_without(t, id);
        let res = conflicts_without(cs, id);
        assert forall|k: int| 0 <= k < res.len() implies !mentions(#[trigger] res[k], id) && cs.contains(res[k]) by {
            if k < rest.len() {
                assert(res[k] == rest[k]);
                let m = choose|m: int| 0 <= m < t.len() && t[m] == rest[k];
                assert(cs[m] == rest[k]);
            } else {
                assert(res[k] == cs[cs.len() - 1]);
            }
        }
    }
}

proof fn lemma_strip_keys(bs: Seq<BindingView>, id: Seq<char>, key: KeyCode)
    requires
        !key_bound(bs, key),
    ensures
        !key_bound(strip_bindings(bs, id), key),
    decreases bs.len(),
{
    if bs.len() > 0 {
        let t = bs.drop_last();
        assert(!key_bound(t, key)) by {
            if key_bound(t, key) {
                let i = choose|i: int| 0 <= i < t.len() && #[trigger] t[i].key == key;
                assert(bs[i].key == key);
            }
        }
        lemma_strip_keys(t, id, key);
        let rest = strip_bindings(t, id);
        let res = strip_bindings(bs, id);
        if key_bound(res, key) {
            let i = choose|i: int| 0 <= i < res.len() && #[trigger] res[i].key == key;
            if i < rest.len() {
                assert(res[i] == rest[i]);
            } else {
                assert(res[i].key == bs[bs.len() - 1].key);
            }
        }
    }
}

proof fn lemma_strip_ok(bs: Seq<BindingView>, id: Seq<char>, ids: Seq<Seq<char>>, ids2: Seq<Seq<char>>)
    requires
        bindings_ok(bs, ids),
        forall|x: Seq<char>| ids.contains(x) && x != id ==> #[trigger] ids2.contains(x),
    ensures
        bindings_ok(strip_bindings(bs, id), ids2),
    decreases bs.len(),
{
    if bs.len() > 0 {
        let t = bs.drop_last();
        let last = bs[bs.len() - 1];
        assert(bindings_ok(t, ids)) by {
            assert forall|a: int, b: int| 0 <= a < b < t.len() implies #[trigger] t[a].key != #[trigger] t[b].key by {
                assert(t[a] == bs[a] && t[b] == bs[b]);
            }
            assert forall|a: int| 0 <= a < t.len() implies #[trigger] t[a].handlers.len() > 0 by {
                assert(t[a] == bs[a]);
            }
            assert forall|a: int| 0 <= a < t.len() implies sorted_by_priority(#[trigger] t[a].handlers) by {
                assert(t[a] == bs[a]);
            }
            assert forall|a: int, k: int|
                0 <= a < t.len() && 0 <= k < t[a].handlers.len() implies ids.contains(#[trigger] t[a].handlers[k].id) by {
                assert(t[a] == bs[a]);
            }
        }
        lemma_strip_ok(t, id, ids, ids2);
        let rest = strip_bindings(t, id);
        let kept = without_handler(last.handlers, id);
        if kept.len() > 0 {
            let res = strip_bindings(bs, id);
            assert(!key_bound(t, last.key)) by {
                if key_bound(t, last.key) {
                    let i = choose|i: int| 0 <= i < t.len() && #[trigger] t[i].key == last.key;
                    assert(bs[i].key != bs[bs.len() - 1].key);
                }
            }
            lemma_strip_keys(t, id, last.key);
            lemma_without_handler(last.handlers, id);
            assert forall|a: int, b: int| 0 <= a < b < res.len() implies #[trigger] res[a].key != #[trigger] res[b].key by {
                assert(res[a] == rest[a]);
                if b < rest.len() {
                    assert(res[b] == rest[b]);
                } else {
                    assert(!(rest[a].key == last.key));
                }
            }
            assert forall|a: int| 0 <= a < res.len() implies #[trigger] res[a].handlers.len() > 0 by {
                if a < rest.len() {
                    assert(res[a] == rest[a]);
                }
            }
            assert forall|a: int| 0 <= a < res.len() implies sorted_by_priority(#[trigger] res[a].handlers) by {
                if a < rest.len() {
                    assert(res[a] == rest[a]);
                }
            }
            assert forall|a: int, k: int|
                0 <= a < res.len() && 0 <= k < res[a].handlers.len() implies ids2.contains(#[trigger] res[a].handlers[k].id) by {
                if a < rest.len() {
                    assert(res[a] == rest[a]);
                } else {
                    assert(res[a].handlers == kept);
                    assert(kept[k].id != id && last.handlers.contains(kept[k]));
                    let m = choose|m: int| 0 <= m < last.handlers.len() && last.handlers[m] == kept[k];
                    assert(bs[bs.len() - 1].handlers[m] == kept[k]);
                    assert(ids.contains(kept[k].id));
                }
            }
        }
    }
}

proof fn lemma_unregister_keeps_wf(r: RegistryView, id: Seq<char>)
    requires
        registry_wf(r),
    ensures
        registry_wf(unregistered_after(r, id)),
{
    let ids2 = without_id(r.registered, id);
    lemma_without_id(r.registered, id);
    lemma_strip_ok(r.bindings, id, r.registered, ids2);
    lemma_conflicts_without(r.conflicts, id);
    let cs2 = conflicts_without(r.conflicts, id);
    assert forall|c: int| 0 <= c < cs2.len() implies ids2.contains(#[trigger] cs2[c].handler1) && ids2.contains(
        cs2[c].handler2,
    ) by {
        let m = choose|m: int| 0 <= m < r.conflicts.len() && r.conflicts[m] == cs2[c];
        assert(r.registered.contains(r.conflicts[m].handler1));
        assert(r.registered.contains(r.conflicts[m].handler2));
    }
}

proof fn lemma_without_handler_absent(hs: Seq<HandlerView>, id: Seq<char>)
    requires
        forall|k: int| 0 <= k < hs.len() ==> #[trigger] hs[k].id != id,
    ensures
        without_handler(hs, id) == hs,
    decreases hs.len(),
{
    if hs.len() > 0 {
        let t = hs.drop_last();
        assert forall|k: int| 0 <= k < t.len() implies #[trigger] t[k].id != id by {
            assert(t[k] == hs[k]);
        }
        lemma_without_handler_absent(t, id);
        assert(hs[hs.len() - 1].id != id);
        assert(t.push(hs.last()) =~= hs);
    } else {
        assert(hs =~= seq![]);
    }
}

proof fn lemma_strip_absent(bs: Seq<BindingView>, id: Seq<char>)
    requires
        forall|i: int| 0 <= i < bs.len() ==> #[trigger] bs[i].handlers.len() > 0,
        forall|i: int, k: int| 0 <= i < bs.len() && 0 <= k < bs[i].handlers.len() ==> #[trigger] bs[i].handlers[k].id != id,
    ensures
        strip_bindings(bs, id) == bs,
    decreases bs.len(),
{
    if bs.len() > 0 {
        let t = bs.drop_last();
        assert forall|i: int| 0 <= i < t.len() implies #[trigger] t[i].handlers.len() > 0 by {
            assert(t[i] == bs[i]);
        }
        assert forall|i: int, k: int| 0 <= i < t.len() && 0 <= k < t[i].handlers.len() implies #[trigger] t[i].handlers[k].id != id by {
            assert(t[i] == bs[i]);
        }
        lemma_strip_absent(t, id);
        let last = bs[bs.len() - 1];
        assert forall|k: int| 0 <= k < last.handlers.len() implies #[trigger] last.handlers[k].id != id by {
            assert(bs[bs.len() - 1].handlers[k].id != id);
        }
        lemma_without_handler_absent(last.handlers, id);
        assert(t.push(BindingView { key: last.key, handlers: last.handlers }) =~= bs);
    } else {
        assert(bs =~= seq![]);
    }
}

proof fn lemma_without_handler_insert(s: Seq<HandlerView>, p: int, h: HandlerView)
    requires
        0 <= p <= s.len(),
    ensures
        without_handler(s.insert(p, h), h.id) == without_handler(s, h.id),
    decreases s.len(),
{
    let t = s.insert(p, h);
    if p == s.len() {
        assert(t.drop_last() =~= s);
        assert(t.last() == h);
    } else {
        assert(t.drop_last() =~= s.drop_last().insert(p, h));
        assert(t.last() == s.last());
        lemma_without_handler_insert(s.drop_last(), p, h);
    }
}

proof fn lemma_strip_update(bs: Seq<BindingView>, i: int, b: BindingView, id: Seq<char>)
    requires
        0 <= i < bs.len(),
        b.key == bs[i].key,
        without_handler(b.handlers, id) == without_handler(bs[i].handlers, id),
    ensures
        strip_bindings(bs.update(i, b), id) == strip_bindings(bs, id),
    decreases bs.len(),
{
    let u = bs.update(i, b);
    if i == bs.len() - 1 {
        assert(u.drop_last() =~= bs.drop_last());
        assert(u.last() == b);
    } else {
        assert(u.drop_last() =~= bs.drop_last().update(i, b));
        assert(u.last() == bs.last());
        lemma_strip_update(bs.drop_last(), i, b, id);
    }
}

proof fn lemma_strip_bind_key(bs: Seq<BindingView>, cs: Seq<ConflictView>, h: HandlerView, key: KeyCode)
    ensures
        strip_bindings(bind_key(bs, cs, h, key).0, h.id) == strip_bindings(bs, h.id),
{
    if key_bound(bs, key) {
        let i = binding_index(bs, key);
        let hs = bs[i].handlers;
        lemma_priority_slot(hs, h.priority);
        lemma_without_handler_insert(hs, priority_slot(hs, h.priority), h);
        lemma_strip_update(bs, i, BindingView { key, handlers: insert_by_priority(hs, h) }, h.id);
    } else {
        let nb = bs.push(BindingView { key, handlers: seq![h] });
        assert(nb.drop_last() =~= bs);
        let single = seq![h];
        assert(single.drop_last() =~= Seq::<HandlerView>::empty());
        assert(without_handler(single.drop_last(), h.id).len() == 0);
        assert(single.last() == h);
        assert(without_handler(single, h.id).len() == 0);
    }
}

proof fn lemma_strip_bind_keys(bs: Seq<BindingView>, cs: Seq<ConflictView>, h: HandlerView, keys: Seq<KeyCode>)
    ensures
        strip_bindings(bind_keys(bs, cs, h, keys).0, h.id) == strip_bindings(bs, h.id),
    decreases keys.len(),
{
    if keys.len() > 0 {
        lemma_strip_bind_keys(bs, cs, h, keys.drop_last());
        let st = bind_keys(bs, cs, h, keys.drop_last());
        lemma_strip_bind_key(st.0, st.1, h, keys.last());
    }
}

proof fn lemma_conflicts_without_extra(cs: Seq<ConflictView>, extra: Seq<ConflictView>, id: Seq<char>)
    requires
        forall|k: int| 0 <= k < extra.len() ==> mentions(#[trigger] extra[k], id),
    ensures
        conflicts_without(cs + extra, id) == conflicts_without(cs, id),
    decreases extra.len(),
{
    if extra.len() > 0 {
        let e = extra.drop_last();
        assert((cs + extra).drop_last() =~= cs + e);
        assert((cs + extra).last() == extra[extra.len() - 1]);
        assert forall|k: int| 0 <= k < e.len() implies mentions(#[trigger] e[k], id) by {
            assert(e[k] == extra[k]);
        }
        lemma_conflicts_without_extra(cs, e, id);
    } else {
        assert(cs + extra =~= cs);
    }
}

proof fn lemma_conflicts_bind_keys(bs: Seq<BindingView>, cs: Seq<ConflictView>, h: HandlerView, keys: Seq<KeyCode>)
    ensures
        conflicts_without(bind_keys(bs, cs, h, keys).1, h.id) == conflicts_without(cs, h.id),
    decreases keys.len(),
{
    if keys.len() > 0 {
        lemma_conflicts_bind_keys(bs, cs, h, keys.drop_last());
        let st = bind_keys(bs, cs, h, keys.drop_last());
        if key_bound(st.0, keys.last()) {
            let i = binding_index(st.0, keys.last());
            let extra = conflicts_with(st.0[i].handlers, h, keys.last());
            assert forall|k: int| 0 <= k < extra.len() implies mentions(#[trigger] extra[k], h.id) by {
                assert(extra[k].handler2 == h.id);
            }
            lemma_conflicts_without_extra(st.1, extra, h.id);
        }
    }
}

proof fn lemma_conflicts_without_absent(cs: Seq<ConflictView>, id: Seq<char>)
    requires
        forall|k: int| 0 <= k < cs.len() ==> !mentions(#[trigger] cs[k], id),
    ensures
        conflicts_without(cs, id) == cs,
    decreases cs.len(),
{
    if cs.len() > 0 {
        let t = cs.drop_last();
        assert forall|k: int| 0 <= k < t.len() implies !mentions(#[trigger] t[k], id) by {
            assert(t[k] == cs[k]);
        }
        lemma_conflicts_without_absent(t, id);
        assert(!mentions(cs[cs.len() - 1], id));
        assert(t.push(cs.last()) =~= cs);
    } else {
        assert(cs =~= seq![]);
    }
}

proof fn lemma_without_id_absent(ids: Seq<Seq<char>>, id: Seq<char>)
    requires
        !ids.contains(id),
    ensures
        without_id(ids, id) == ids,
    decreases ids.len(),
{
    if ids.len() > 0 {
        let t = ids.drop_last();
        assert(!t.contains(id)) by {
            if t.contains(id) {
                let k = choose|k: int| 0 <= k < t.len() && t[k] == id;
                assert(ids[k] == id);
            }
        }
        lemma_without_id_absent(t, id);
        assert(ids[ids.len() - 1] != id);
        assert(t.push(ids.last()) =~= ids);
    } else {
        assert(ids =~= seq![]);
    }
}

/// Unregistering a handler right after registering it gives back the
/// registry as it was: its keys, registered ids and conflicts.
pub proof fn law_unregister_undoes_register(r: RegistryView, h: HandlerView)
    requires
        registry_wf(r),
        !r.registered.contains(h.id),
    ensures
        unregistered_after(registered_after(r, h), h.id) == r,
{
    let after = registered_after(r, h);
    let back = unregistered_after(after, h.id);
    lemma_strip_bind_keys(r.bindings, r.conflicts, h, h.keys);
    assert forall|i: int, k: int| 0 <= i < r.bindings.len() && 0 <= k < r.bindings[i].handlers.len() implies #[trigger] r.bindings[i].handlers[k].id != h.id by {
        assert(r.registered.contains(r.bindings[i].handlers[k].id));
    }
    lemma_strip_absent(r.bindings, h.id);
    lemma_conflicts_bind_keys(r.bindings, r.conflicts, h, h.keys);
    assert forall|k: int| 0 <= k < r.conflicts.len() implies !mentions(#[trigger] r.conflicts[k], h.id) by {
        assert(r.registered.contains(r.conflicts[k].handler1));
        assert(r.registered.contains(r.conflicts[k].handler2));
    }
    lemma_conflicts_without_absent(r.conflicts, h.id);
    assert(r.registered.push(h.id).drop_last() =~= r.registered);
    lemma_without_id_absent(r.registered, h.id);
    assert(back.bindings == r.bindings);
    assert(back.conflicts == r.conflicts);
    assert(back.registered == r.registered);
}

/// A new handler is served after every handler of the key with at least its
/// priority (so equal priorities keep registration order) and before every
/// handler of lower priority; the others keep their order.
pub proof fn law_priority_then_registration_order(s: Seq<HandlerView>, h: HandlerView)
    requires
        sorted_by_priority(s),
    ensures
        ({
            let t = insert_by_priority(s, h);
            let p = priority_slot(s, h.priority);
            &&& sorted_by_priority(t)
            &&& 0 <= p <= s.len()
            &&& t[p] == h
            &&& forall|j: int| 0 <= j < p ==> t[j] == s[j] && #[trigger] s[j].priority >= h.priority
            &&& forall|j: int| p < j < t.len() ==> t[j] == s[j - 1] && #[trigger] t[j].priority < h.priority
        }),
{
    lemma_priority_slot(s, h.priority);
    lemma_insert_keeps_sorted(s, h);
    let t = insert_by_priority(s, h);
    let p = priority_slot(s, h.priority);
    assert forall|j: int| p < j < t.len() implies t[j] == s[j - 1] && #[trigger] t[j].priority < h.priority by {
        assert(s[p].priority >= s[j - 1].priority);
    }
}

/// The handlers bound to `key` among `bs`, highest priority first; none when
/// the key is unbound.
pub open spec fn handlers_in(bs: Seq<BindingView>, key: KeyCode) -> Seq<HandlerView> {
    if key_bound(bs, key) {
        bs[binding_index(bs, key)].handlers
    } else {
        seq![]
    }
}

proof fn lemma_handlers_bind_key(bs: Seq<BindingView>, cs: Seq<ConflictView>, h: HandlerView, key: KeyCode, k: KeyCode)
    requires
        keys_distinct(bs),
    ensures
        keys_distinct(bind_key(bs, cs, h, key).0),
        handlers_in(bind_key(bs, cs, h, key).0, k) == (if k == key {
            insert_by_priority(handlers_in(bs, k), h)
        } else {
            handlers_in(bs, k)
        }),
{
    let nb = bind_key(bs, cs, h, key).0;
    if key_bound(bs, key) {
        let i = binding_index(bs, key);
        assert forall|a: int, b: int| 0 <= a < b < nb.len() implies #[trigger] nb[a].key != #[trigger] nb[b].key by {
            assert(nb[a].key == bs[a].key);
            assert(nb[b].key == bs[b].key);
        }
        if k == key {
            lemma_binding_index_is(nb, key, i);
        } else if key_bound(bs, k) {
            let j = binding_index(bs, k);
            assert(j != i);
            assert(nb[j] == bs[j]);
            lemma_binding_index_is(nb, k, j);
        } else {
            if key_bound(nb, k) {
                let j = binding_index(nb, k);
                assert(bs[j].key == k);
            }
        }
    } else {
        let n = bs.len() as int;
        assert forall|a: int, b: int| 0 <= a < b < nb.len() implies #[trigger] nb[a].key != #[trigger] nb[b].key by {
            assert(nb[a] == bs[a]);
            if b < n {
                assert(nb[b] == bs[b]);
            }
        }
        if k == key {
            lemma_binding_index_is(nb, key, n);
            lemma_priority_slot_is(seq![], h.priority, 0);
            assert(insert_by_priority(seq![], h) =~= seq![h]);
        } else if key_bound(bs, k) {
            let j = binding_index(bs, k);
            assert(nb[j] == bs[j]);
            lemma_binding_index_is(nb, k, j);
        } else {
            if key_bound(nb, k) {
                let j = binding_index(nb, k);
                if j < n {
                    assert(bs[j].key == k);
                }
            }
        }
    }
}

proof fn lemma_handlers_bind_keys(bs: Seq<BindingView>, cs: Seq<ConflictView>, h: HandlerView, keys: Seq<KeyCode>, k: KeyCode)
    requires
        keys_distinct(bs),
        keys.no_duplicates(),
    ensures
        keys_distinct(bind_keys(bs, cs, h, keys).0),
        handlers_in(bind_keys(bs, cs, h, keys).0, k) == (if keys.contains(k) {
            insert_by_priority(handlers_in(bs, k), h)
        } else {
            handlers_in(bs, k)
        }),
    decreases keys.len(),
{
    if keys.len() > 0 {
        let t = keys.drop_last();
        let last = keys.last();
        assert(t.no_duplicates()) by {
            assert forall|a: int, b: int| 0 <= a < t.len() && 0 <= b < t.len() && a != b implies t[a] != t[b] by {
                assert(t[a] == keys[a] && t[b] == keys[b]);
            }
        }
        lemma_handlers_bind_keys(bs, cs, h, t, k);
        let st = bind_keys(bs, cs, h, t);
        lemma_handlers_bind_key(st.0, st.1, h, last, k);
        assert(keys.contains(k) <==> t.contains(k) || k == last) by {
            if keys.contains(k) {
                let m = choose|m: int| 0 <= m < keys.len() && keys[m] == k;
                if m < t.len() {
                    assert(t[m] == k);
                }
            }
            if t.contains(k) {
                let m = choose|m: int| 0 <= m < t.len() && t[m] == k;
                assert(keys[m] == k);
            }
            if k == last {
                assert(keys[keys.len() - 1] == k);
            }
        }
        if k == last {
            assert(!t.contains(k)) by {
                if t.contains(k) {
                    let m = choose|m: int| 0 <= m < t.len() && t[m] == k;
                    assert(keys[m] == keys[keys.len() - 1]);
                }
            }
        }
    }
}

/// The registry after registering each of `hs` in turn.
pub open spec fn registered_all(r: RegistryView, hs: Seq<HandlerView>) -> RegistryView
    decreases hs.len(),
{
    if hs.len() == 0 {
        r
    } else {
        registered_after(registered_all(r, hs.drop_last()), hs.last())
    }
}

/// The handlers of `hs` that handle `key`, highest priority first and, among
/// equal priorities, in the order of `hs`.
pub open spec fn serving_order(hs: Seq<HandlerView>, key: KeyCode) -> Seq<HandlerView>
    decreases hs.len(),
{
    if hs.len() == 0 {
        seq![]
    } else if hs.last().keys.contains(key) {
        insert_by_priority(serving_order(hs.drop_last(), key), hs.last())
    } else {
        serving_order(hs.drop_last(), key)
    }
}

/// After handlers with distinct ids are registered one by one into a new
/// registry (so that every registration succeeds), each listing its keys once,
/// the handlers of a key are exactly those of them that handle it, highest
/// priority first and, among equal priorities, in registration order.
pub proof fn law_handlers_follow_registrations(hs: Seq<HandlerView>, key: KeyCode)
    requires
        forall|i: int, j: int| 0 <= i < j < hs.len() ==> #[trigger] hs[i].id != #[trigger] hs[j].id,
        forall|i: int| 0 <= i < hs.len() ==> (#[trigger] hs[i].keys).no_duplicates(),
    ensures
        handlers_for(
            registered_all(RegistryView { bindings: seq![], registered: seq![], conflicts: seq![], debug_logging: false }, hs),
            key,
        ) == serving_order(hs, key),
        sorted_by_priority(serving_order(hs, key)),
        keys_distinct(
            registered_all(RegistryView { bindings: seq![], registered: seq![], conflicts: seq![], debug_logging: false }, hs).bindings,
        ),
        registered_all(RegistryView { bindings: seq![], registered: seq![], conflicts: seq![], debug_logging: false }, hs).registered
            == hs.map_values(|h: HandlerView| h.id),
    decreases hs.len(),
{
    let r0 = RegistryView { bindings: seq![], registered: seq![], conflicts: seq![], debug_logging: false };
    if hs.len() > 0 {
        let t = hs.drop_last();
        assert forall|i: int, j: int| 0 <= i < j < t.len() implies #[trigger] t[i].id != #[trigger] t[j].id by {
            assert(t[i] == hs[i] && t[j] == hs[j]);
        }
        assert forall|i: int| 0 <= i < t.len() implies (#[trigger] t[i].keys).no_duplicates() by {
            assert(t[i] == hs[i]);
        }
        law_handlers_follow_registrations(t, key);
        let prev = registered_all(r0, t);
        let h = hs.last();
        assert(hs[hs.len() - 1].keys.no_duplicates());
        lemma_handlers_bind_keys(prev.bindings, prev.conflicts, h, h.keys, key);
        lemma_insert_keeps_sorted(serving_order(t, key), h);
        assert(hs.map_values(|h: HandlerView| h.id) =~= t.map_values(|h: HandlerView| h.id).push(h.id));
    } else {
        assert(hs.map_values(|h: HandlerView| h.id) =~= seq![]);
    }
}

/// The registration positions (in `hs`) of the handlers of `serving_order(hs, key)`, in the same order.
pub open spec fn serving_positions(hs: Seq<HandlerView>, key: KeyCode) -> Seq<int>
    decreases hs.len(),
{
    if hs.len() == 0 {
        seq![]
    } else if hs.last().keys.contains(key) {
        serving_positions(hs.drop_last(), key).insert(
            priority_slot(serving_order(hs.drop_last(), key), hs.last().priority),
            hs.len() - 1,
        )
    } else {
        serving_positions(hs.drop_last(), key)
    }
}

proof fn lemma_positions_insert(o1: Seq<HandlerView>, pos1: Seq<int>, h: HandlerView, n: int)
    requires
        sorted_by_priority(o1),
        o1.len() == pos1.len(),
        forall|p: int| 0 <= p < pos1.len() ==> #[trigger] pos1[p] < n,
        forall|p: int, q: int|
            0 <= p < q < o1.len() && o1[p].priority == o1[q].priority ==> #[trigger] pos1[p] < #[trigger] pos1[q],
    ensures
        ({
            let slot = priority_slot(o1, h.priority);
            let o = o1.insert(slot, h);
            let pos = pos1.insert(slot, n);
            forall|p: int, q: int|
                0 <= p < q < o.len() && o[p].priority == o[q].priority ==> #[trigger] pos[p] < #[trigger] pos[q]
        }),
{
    let slot = priority_slot(o1, h.priority);
    lemma_priority_slot(o1, h.priority);
    let o = o1.insert(slot, h);
    let pos = pos1.insert(slot, n);
    assert forall|p: int, q: int|
        0 <= p < q < o.len() && o[p].priority == o[q].priority implies #[trigger] pos[p] < #[trigger] pos[q] by {
        if q < slot {
            assert(o[p] == o1[p] && o[q] == o1[q] && pos[p] == pos1[p] && pos[q] == pos1[q]);
        } else if q == slot {
            assert(pos[p] == pos1[p]);
        } else if p > slot {
            assert(o[p] == o1[p - 1] && o[q] == o1[q - 1] && pos[p] == pos1[p - 1] && pos[q] == pos1[q - 1]);
        } else if p == slot {
            assert(o[q] == o1[q - 1]);
            assert(o1[slot].priority < h.priority);
            assert(o1[slot].priority >= o1[q - 1].priority);
        } else {
            assert(o[q] == o1[q - 1] && o[p] == o1[p]);
            assert(o1[slot].priority < h.priority);
            assert(o1[p].priority >= h.priority);
            assert(o1[slot].priority >= o1[q - 1].priority);
        }
    }
}

/// The handlers served for `key` are exactly the registered handlers that
/// handle it, each once: the `p`-th served is the one registered at
/// `serving_positions(hs, key)[p]`. Higher priority is served first, and
/// among equal priorities the earlier registration is served first.
pub proof fn law_equal_priorities_keep_registration_order(hs: Seq<HandlerView>, key: KeyCode)
    ensures
        ({
            let o = serving_order(hs, key);
            let pos = serving_positions(hs, key);
            &&& o.len() == pos.len()
            &&& forall|p: int| 0 <= p < o.len() ==> 0 <= #[trigger] pos[p] < hs.len() && o[p] == hs[pos[p]]
                && hs[pos[p]].keys.contains(key)
            &&& forall|i: int| 0 <= i < hs.len() && (#[trigger] hs[i]).keys.contains(key) ==> exists|p: int|
                0 <= p < pos.len() && pos[p] == i
            &&& forall|p: int, q: int| 0 <= p < q < o.len() ==> #[trigger] o[p].priority >= #[trigger] o[q].priority
            &&& forall|p: int, q: int|
                0 <= p < q < o.len() && o[p].priority == o[q].priority ==> #[trigger] pos[p] < #[trigger] pos[q]
        }),
    decreases hs.len(),
{
    if hs.len() > 0 {
        let t = hs.drop_last();
        law_equal_priorities_keep_registration_order(t, key);
        let h = hs.last();
        let n = hs.len() - 1;
        let o1 = serving_order(t, key);
        let pos1 = serving_positions(t, key);
        assert forall|i: int| 0 <= i < t.len() implies #[trigger] t[i] == hs[i] by {}
        if h.keys.contains(key) {
            let slot = priority_slot(o1, h.priority);
            lemma_priority_slot(o1, h.priority);
            lemma_insert_keeps_sorted(o1, h);
            let o = o1.insert(slot, h);
            let pos = pos1.insert(slot, n);
            assert forall|p: int| 0 <= p < o.len() implies 0 <= #[trigger] pos[p] < hs.len() && o[p] == hs[pos[p]]
                && hs[pos[p]].keys.contains(key) by {
                if p < slot {
                    assert(o[p] == o1[p] && pos[p] == pos1[p]);
                } else if p > slot {
                    assert(o[p] == o1[p - 1] && pos[p] == pos1[p - 1]);
                }
            }
            assert forall|i: int| 0 <= i < hs.len() && (#[trigger] hs[i]).keys.contains(key) implies exists|p: int|
                0 <= p < pos.len() && pos[p] == i by {
                if i == n {
                    assert(pos[slot] == n);
                } else {
                    assert(t[i].keys.contains(key));
                    let p1 = choose|p: int| 0 <= p < pos1.len() && pos1[p] == i;
                    if p1 < slot {
                        assert(pos[p1] == i);
                    } else {
                        assert(pos[p1 + 1] == i);
                    }
                }
            }
            lemma_positions_insert(o1, pos1, h, n);
        } else {
            assert forall|i: int| 0 <= i < hs.len() && (#[trigger] hs[i]).keys.contains(key) implies exists|p: int|
                0 <= p < pos1.len() && pos1[p] == i by {
                assert(i != n);
                assert(t[i].keys.contains(key));
            }
        }
    }
}

} // verus!
