use vstd::prelude::*;
use crate::input_registry::{
    already_registered_message, registered_after, registry_wf, HandlerView, InputContext, InputHandler,
    InputMappingRegistry, KeyCode, RegistryView,
};

verus! {

/// F1: toggles the debug overlay and moves the grid to debug mode.
pub open spec fn debug_visualization_view() -> HandlerView {
    HandlerView {
        id: "debug_visualization"@,
        description: "Toggle debug visualization and switch to debug grid mode"@,
        priority: 30,
        context: InputContext::Debug,
        keys: seq![KeyCode::F1],
    }
}

/// F2: shows or hides the debug panel.
pub open spec fn debug_ui_view() -> HandlerView {
    HandlerView {
        id: "debug_ui"@,
        description: "Toggle debug UI panel visibility"@,
        priority: 30,
        context: InputContext::Debug,
        keys: seq![KeyCode::F2],
    }
}

/// F3: cycles the grid display mode.
pub open spec fn grid_mode_view() -> HandlerView {
    HandlerView {
        id: "grid_mode"@,
        description: "Cycle grid visualization mode (Normal -> Debug -> Placement)"@,
        priority: 20,
        context: InputContext::Game,
        keys: seq![KeyCode::F3],
    }
}

/// F4: shows or hides the grid borders.
pub open spec fn grid_border_view() -> HandlerView {
    HandlerView {
        id: "grid_border"@,
        description: "Toggle grid border visibility"@,
        priority: 20,
        context: InputContext::Game,
        keys: seq![KeyCode::F4],
    }
}

/// F9: shows or hides the cheat menu.
pub open spec fn cheat_menu_view() -> HandlerView {
    HandlerView {
        id: "cheat_menu"@,
        description: "Toggle cheat menu visibility"@,
        priority: 40,
        context: InputContext::Admin,
        keys: seq![KeyCode::F9],
    }
}

/// F3 and F4 in one handler.
pub open spec fn grid_system_view() -> HandlerView {
    HandlerView {
        id: "grid_system_combined"@,
        description: "Combined grid mode cycling (F3) and border toggle (F4) handler"@,
        priority: 20,
        context: InputContext::Game,
        keys: seq![KeyCode::F3, KeyCode::F4],
    }
}

fn keys_of(a: KeyCode) -> (r: Vec<KeyCode>)
    ensures
        r@ == seq![a],
{
    let mut r: Vec<KeyCode> = Vec::new();
    r.push(a);
    r
}

/// The F1 handler.
pub struct F1DebugVisualizationHandler;

impl F1DebugVisualizationHandler {
    pub fn handler(&self) -> (r: InputHandler)
        ensures
            r@ == debug_visualization_view(),
    {
        InputHandler::new(
            "debug_visualization",
            "Toggle debug visualization and switch to debug grid mode",
            30,
            InputContext::Debug,
            keys_of(KeyCode::F1),
        )
    }
}

/// The F2 handler.
pub struct F2DebugUIHandler;

impl F2DebugUIHandler {
    pub fn handler(&self) -> (r: InputHandler)
        ensures
            r@ == debug_ui_view(),
    {
        InputHandler::new(
            "debug_ui",
            "Toggle debug UI panel visibility",
            30,
            InputContext::Debug,
            keys_of(KeyCode::F2),
        )
    }
}

/// The F3 handler.
pub struct F3GridModeHandler;

impl F3GridModeHandler {
    pub fn handler(&self) -> (r: InputHandler)
        ensures
            r@ == grid_mode_view(),
    {
        InputHandler::new(
            "grid_mode",
            "Cycle grid visualization mode (Normal -> Debug -> Placement)",
            20,
            InputContext::Game,
            keys_of(KeyCode::F3),
        )
    }
}

/// The F4 handler.
pub struct F4GridBorderHandler;

impl F4GridBorderHandler {
    pub fn handler(&self) -> (r: InputHandler)
        ensures
            r@ == grid_border_view(),
    {
        InputHandler::new(
            "grid_border",
            "Toggle grid border visibility",
            20,
            InputContext::Game,
            keys_of(KeyCode::F4),
        )
    }
}

/// The F9 handler.
pub struct F9CheatMenuHandler;

impl F9CheatMenuHandler {
    pub fn handler(&self) -> (r: InputHandler)
        ensures
            r@ == cheat_menu_view(),
    {
        InputHandler::new(
            "cheat_menu",
            "Toggle cheat menu visibility",
            40,
            InputContext::Admin,
            keys_of(KeyCode::F9),
        )
    }
}

/// One handler for both F3 and F4.
pub struct GridSystemHandler;

impl GridSystemHandler {
    pub fn handler(&self) -> (r: InputHandler)
        ensures
            r@ == grid_system_view(),
    {
        let mut keys: Vec<KeyCode> = Vec::new();
        keys.push(KeyCode::F3);
        keys.push(KeyCode::F4);
        assert(keys@ =~= seq![KeyCode::F3, KeyCode::F4]);
        InputHandler::new(
            "grid_system_combined",
            "Combined grid mode cycling (F3) and border toggle (F4) handler",
            20,
            InputContext::Game,
            keys,
        )
    }
}

/// The five standard handlers, F1, F2, F3, F4 and F9, in that order.
pub open spec fn standard_views() -> Seq<HandlerView> {
    seq![debug_visualization_view(), debug_ui_view(), grid_mode_view(), grid_border_view(), cheat_menu_view()]
}

/// The F1, F2, F3, F4 and F9 handlers.
pub fn create_standard_fkey_handlers() -> (r: Vec<InputHandler>)
    ensures
        r@.map_values(|h: InputHandler| h@) == standard_views(),
{
    let mut r: Vec<InputHandler> = Vec::new();
    r.push(F1DebugVisualizationHandler.handler());
    r.push(F2DebugUIHandler.handler());
    r.push(F3GridModeHandler.handler());
    r.push(F4GridBorderHandler.handler());
    r.push(F9CheatMenuHandler.handler());
    assert(r@.map_values(|h: InputHandler| h@) =~= standard_views());
    r
}

/// The combined F3 and F4 handler.
pub fn create_combined_grid_handler() -> (r: InputHandler)
    ensures
        r@ == grid_system_view(),
{
    GridSystemHandler.handler()
}

/// The registry after trying to register `h`, and the refusal if there was one.
pub open spec fn register_or_refuse(r: RegistryView, h: HandlerView) -> (RegistryView, Seq<Seq<char>>) {
    if r.registered.contains(h.id) {
        (r, seq![already_registered_message(h.id)])
    } else {
        (registered_after(r, h), seq![])
    }
}

/// The registry after trying to register each of `hs` in turn, and the refusals.
pub open spec fn register_all(r: RegistryView, hs: Seq<HandlerView>) -> (RegistryView, Seq<Seq<char>>)
    decreases hs.len(),
{
    if hs.len() == 0 {
        (r, seq![])
    } else {
        let st = register_all(r, hs.drop_last());
        let one = register_or_refuse(st.0, hs.last());
        (one.0, st.1 + one.1)
    }
}

/// The handlers that start-up registers: the combined grid handler with F1,
/// F2 and F9, or the five standard handlers.
pub open spec fn startup_views(use_combined_grid: bool) -> Seq<HandlerView> {
    if use_combined_grid {
        seq![grid_system_view(), debug_visualization_view(), debug_ui_view(), cheat_menu_view()]
    } else {
        standard_views()
    }
}

/// Registers each of `handlers` in turn, returning the refusals.
pub fn register_handlers(registry: &mut InputMappingRegistry, handlers: &Vec<InputHandler>) -> (errors: Vec<String>)
    requires
        registry_wf(old(registry)@),
    ensures
        registry_wf(final(registry)@),
        final(registry)@ == register_all(old(registry)@, handlers@.map_values(|h: InputHandler| h@)).0,
        errors@.map_values(|s: String| s@) == register_all(
            old(registry)@,
            handlers@.map_values(|h: InputHandler| h@),
        ).1,
{
    let ghost r0 = registry@;
    let ghost hv = handlers@.map_values(|h: InputHandler| h@);
    let mut errors: Vec<String> = Vec::new();
    let mut i: usize = 0;
    assert(hv.take(0) =~= Seq::<HandlerView>::empty());
    assert(errors@.map_values(|s: String| s@) =~= Seq::<Seq<char>>::empty());
    while i < handlers.len()
        invariant
            i <= handlers.len(),
            hv == handlers@.map_values(|h: InputHandler| h@),
            registry_wf(registry@),
            registry@ == register_all(r0, hv.take(i as int)).0,
            errors@.map_values(|s: String| s@) == register_all(r0, hv.take(i as int)).1,
        decreases handlers.len() - i,
    {
        assert(hv.take(i + 1).drop_last() =~= hv.take(i as int));
        assert(hv.take(i + 1).last() == handlers@[i as int]@);
        let ghost before = errors@.map_values(|s: String| s@);
        let h = handlers[i].duplicate();
        match registry.register_handler(h) {
            Result::Ok(_) => {
                assert(before + Seq::<Seq<char>>::empty() =~= before);
            },
            Result::Err(msg) => {
                let ghost m = msg@;
                errors.push(msg);
                assert(errors@.map_values(|s: String| s@) =~= before + seq![m]);
            },
        }
        i += 1;
    }
    assert(hv.take(handlers.len() as int) =~= hv);
    errors
}

/// Registers the start-up handlers (see `startup_views`), returning the refusals.
pub fn register_standard_handlers(registry: &mut InputMappingRegistry, use_combined_grid: bool) -> (errors: Vec<String>)
    requires
        registry_wf(old(registry)@),
    ensures
        registry_wf(final(registry)@),
        final(registry)@ == register_all(old(registry)@, startup_views(use_combined_grid)).0,
        errors@.map_values(|s: String| s@) == register_all(old(registry)@, startup_views(use_combined_grid)).1,
{
    let handlers = if use_combined_grid {
        let mut v: Vec<InputHandler> = Vec::new();
        v.push(create_combined_grid_handler());
        v.push(F1DebugVisualizationHandler.handler());
        v.push(F2DebugUIHandler.handler());
        v.push(F9CheatMenuHandler.handler());
        assert(v@.map_values(|h: InputHandler| h@) =~= startup_views(true));
        v
    } else {
        create_standard_fkey_handlers()
    };
    register_handlers(registry, &handlers)
}

/// What the registry reports to listeners.
#[derive(Debug, Clone, Copy, PartialEq, Eq, Structural)]
pub enum RegistryAction {
    HandlerRegistered,
    HandlerUnregistered,
    ConflictDetected,
}

/// How the input registry is set up: debug logging, the combined grid
/// handler in place of separate F3 and F4 handlers, and whether the standard
/// handlers are registered at start-up.
#[derive(Debug, Clone, Copy, PartialEq, Eq, Structural)]
pub struct InputRegistryPlugin {
    pub debug_logging: bool,
    pub use_combined_grid_handler: bool,
    pub auto_register_fkeys: bool,
}

impl Default for InputRegistryPlugin {
    fn default() -> (r: Self)
        ensures
            r == (InputRegistryPlugin { debug_logging: false, use_combined_grid_handler: false, auto_register_fkeys: true }),
    {
        InputRegistryPlugin { debug_logging: false, use_combined_grid_handler: false, auto_register_fkeys: true }
    }
}

/// Builds an `InputRegistryPlugin` step by step.
#[derive(Debug, Clone, Copy, PartialEq, Eq, Structural)]
pub struct InputRegistryPluginBuilder {
    pub debug_logging: bool,
    pub use_combined_grid_handler: bool,
    pub auto_register_fkeys: bool,
}

impl InputRegistryPluginBuilder {
    /// The default set-up: no logging, separate grid handlers, standard handlers registered.
    pub fn new() -> (r: Self)
        ensures
            r == (InputRegistryPluginBuilder {
                debug_logging: false,
                use_combined_grid_handler: false,
                auto_register_fkeys: true,
            }),
    {
        InputRegistryPluginBuilder { debug_logging: false, use_combined_grid_handler: false, auto_register_fkeys: true }
    }

    pub fn with_debug_logging(self) -> (r: Self)
        ensures
            r == (InputRegistryPluginBuilder { debug_logging: true, ..self }),
    {
        InputRegistryPluginBuilder { debug_logging: true, ..self }
    }

    pub fn with_combined_grid_handler(self) -> (r: Self)
        ensures
            r == (InputRegistryPluginBuilder { use_combined_grid_handler: true, ..self }),
    {
        InputRegistryPluginBuilder { use_combined_grid_handler: true, ..self }
    }

    pub fn without_auto_registration(self) -> (r: Self)
        ensures
            r == (InputRegistryPluginBuilder { auto_register_fkeys: false, ..self }),
    {
        InputRegistryPluginBuilder { auto_register_fkeys: false, ..self }
    }

    pub fn build(self) -> (r: InputRegistryPlugin)
        ensures
            r == (InputRegistryPlugin {
                debug_logging: self.debug_logging,
                use_combined_grid_handler: self.use_combined_grid_handler,
                auto_register_fkeys: self.auto_register_fkeys,
            }),
    {
        InputRegistryPlugin {
            debug_logging: self.debug_logging,
            use_combined_grid_handler: self.use_combined_grid_handler,
            auto_register_fkeys: self.auto_register_fkeys,
        }
    }
}

impl Default for InputRegistryPluginBuilder {
    fn default() -> (r: Self)
        ensures
            r == (InputRegistryPluginBuilder {
                debug_logging: false,
                use_combined_grid_handler: false,
                auto_register_fkeys: true,
            }),
    {
        InputRegistryPluginBuilder::new()
    }
}

/// A fresh registry set up as `plugin` says: its logging switch, and the
/// start-up handlers when it registers them.
pub fn build_registry(plugin: &InputRegistryPlugin) -> (r: (InputMappingRegistry, Vec<String>))
    ensures
        registry_wf(r.0@),
        ({
            let empty = RegistryView {
                bindings: seq![],
                registered: seq![],
                conflicts: seq![],
                debug_logging: plugin.debug_logging,
            };
            if plugin.auto_register_fkeys {
                &&& r.0@ == register_all(empty, startup_views(plugin.use_combined_grid_handler)).0
                &&& r.1@.map_values(|s: String| s@) == register_all(
                    empty,
                    startup_views(plugin.use_combined_grid_handler),
                ).1
            } else {
                r.0@ == empty && r.1@.len() == 0
            }
        }),
{
    let mut registry = InputMappingRegistry::new();
    registry.set_debug_logging(plugin.debug_logging);
    if plugin.auto_register_fkeys {
        let errors = register_standard_handlers(&mut registry, plugin.use_combined_grid_handler);
        (registry, errors)
    } else {
        (registry, Vec::new())
    }
}

} // verus!
