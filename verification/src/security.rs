use vstd::prelude::*;
use std::time::{Duration, Instant};
use crate::text::{bool_text, bool_text_spec, decimal_string, decimal_text};

verus! {

#[verifier::external_type_specification]
#[verifier::external_body]
pub struct ExInstant(Instant);

/// `Instant::now`: the current moment of the monotonic clock. Nothing is
/// claimed of the value.
#[verifier::external_body]
fn clock_now() -> Instant {
    Instant::now()
}

/// `Instant::elapsed`: the time since `start` on the monotonic clock. Nothing is
/// claimed of the value, which depends on the clock.
#[verifier::external_body]
fn clock_elapsed(start: &Instant) -> Duration {
    start.elapsed()
}

/// `Duration::as_nanos`: the whole nanoseconds in `d`. It reads no clock,
/// but durations are opaque here, so nothing is claimed of the value.
#[verifier::external_body]
fn whole_nanos(d: &Duration) -> u128 {
    d.as_nanos()
}

/// The longest a debug session may last: one hour, in nanoseconds.
pub const MAX_DEBUG_SESSION_NANOS: u128 = 3_600_000_000_000;

/// Who may use the debug features in this session.
#[derive(Debug, Clone, Copy)]
pub struct SecurityContext {
    /// Built with debug assertions.
    pub development_build: bool,
    /// Debug mode has been authorized for this session.
    pub debug_mode_authorized: bool,
    /// Admin (cheat) privileges are granted.
    pub admin_privileges: bool,
    /// When the debug session started.
    pub session_start: Instant,
    /// How long a debug session may last, in nanoseconds.
    pub max_debug_session_nanos: u128,
}

/// The session has expired after `elapsed_nanos` nanoseconds: more than its
/// maximum duration have passed.
pub open spec fn session_expired_at(ctx: SecurityContext, elapsed_nanos: u128) -> bool {
    elapsed_nanos > ctx.max_debug_session_nanos
}

/// Debug access is granted: a development build, authorized, and the session
/// not expired.
pub open spec fn debug_access(ctx: SecurityContext, session_expired: bool) -> bool {
    ctx.development_build && ctx.debug_mode_authorized && !session_expired
}

/// Cheat access is granted: debug access plus admin privileges.
pub open spec fn cheat_access(ctx: SecurityContext, session_expired: bool) -> bool {
    debug_access(ctx, session_expired) && ctx.admin_privileges
}

/// Cheat access is never granted without debug access.
pub proof fn law_cheat_access_needs_debug_access(ctx: SecurityContext, session_expired: bool)
    ensures
        cheat_access(ctx, session_expired) ==> debug_access(ctx, session_expired),
{
}

impl Default for SecurityContext {
    /// Nothing authorized, a session starting now and lasting at most one hour.
    fn default() -> (r: Self)
        ensures
            !r.development_build,
            !r.debug_mode_authorized,
            !r.admin_privileges,
            r.max_debug_session_nanos == MAX_DEBUG_SESSION_NANOS,
    {
        SecurityContext {
            development_build: false,
            debug_mode_authorized: false,
            admin_privileges: false,
            session_start: clock_now(),
            max_debug_session_nanos: MAX_DEBUG_SESSION_NANOS,
        }
    }
}

impl SecurityContext {
    /// Whether the debug session has outlived its maximum duration, by the
    /// clock (see `session_expired_after`).
    pub fn is_session_expired(&self) -> (r: bool)
        ensures
            exists|elapsed_nanos: u128| r == #[trigger] session_expired_at(*self, elapsed_nanos),
    {
        let elapsed = clock_elapsed(&self.session_start);
        let nanos = whole_nanos(&elapsed);
        self.session_expired_after(nanos)
    }

    /// Whether the session has expired once `elapsed_nanos` nanoseconds have
    /// passed since it started: more than the maximum duration.
    pub fn session_expired_after(&self, elapsed_nanos: u128) -> (r: bool)
        ensures
            r == session_expired_at(*self, elapsed_nanos),
    {
        elapsed_nanos > self.max_debug_session_nanos
    }

    /// Debug access given whether the session has expired.
    pub fn debug_access_given(&self, session_expired: bool) -> (r: bool)
        ensures
            r == debug_access(*self, session_expired),
    {
        self.development_build && self.debug_mode_authorized && !session_expired
    }

    /// Cheat access given whether the session has expired.
    pub fn cheat_access_given(&self, session_expired: bool) -> (r: bool)
        ensures
            r == cheat_access(*self, session_expired),
    {
        self.development_build && self.debug_mode_authorized && self.admin_privileges && !session_expired
    }

    /// May use debug visualization now.
    pub fn has_debug_visualization_permission(&self) -> (r: bool)
        ensures
            r ==> self.development_build && self.debug_mode_authorized,
    {
        let expired = self.is_session_expired();
        self.debug_access_given(expired)
    }

    /// May use the debug panel now.
    pub fn has_debug_ui_permission(&self) -> (r: bool)
        ensures
            r ==> self.development_build && self.debug_mode_authorized,
    {
        let expired = self.is_session_expired();
        self.debug_access_given(expired)
    }

    /// May use cheats now.
    pub fn has_cheat_permission(&self) -> (r: bool)
        ensures
            r ==> self.development_build && self.debug_mode_authorized && self.admin_privileges,
    {
        let expired = self.is_session_expired();
        self.cheat_access_given(expired)
    }

    /// May print debug output now: a development build whose session has not expired.
    pub fn has_console_output_permission(&self) -> (r: bool)
        ensures
            r ==> self.development_build,
    {
        self.development_build && !self.is_session_expired()
    }

    /// In a development build, authorizes debug mode and restarts the session
    /// clock; otherwise changes nothing.
    pub fn authorize_debug_access(&mut self)
        ensures
            final(self).development_build == old(self).development_build,
            final(self).admin_privileges == old(self).admin_privileges,
            final(self).max_debug_session_nanos == old(self).max_debug_session_nanos,
            final(self).debug_mode_authorized == (old(self).debug_mode_authorized || old(self).development_build),
            !old(self).development_build ==> *final(self) == *old(self),
    {
        if self.development_build {
            self.debug_mode_authorized = true;
            self.session_start = clock_now();
        }
    }

    /// Grants admin privileges when debug access is granted now; otherwise changes nothing.
    pub fn authorize_admin_privileges(&mut self)
        ensures
            *final(self) == *old(self) || (old(self).development_build && old(self).debug_mode_authorized
                && *final(self) == (SecurityContext { admin_privileges: true, ..*old(self) })),
            !(old(self).development_build && old(self).debug_mode_authorized) ==> *final(self) == *old(self),
    {
        let expired = self.is_session_expired();
        self.grant_admin_given(expired);
    }

    /// Grants admin privileges when debug access is granted, given whether the session has expired.
    pub fn grant_admin_given(&mut self, session_expired: bool)
        ensures
            *final(self) == (if debug_access(*old(self), session_expired) {
                SecurityContext { admin_privileges: true, ..*old(self) }
            } else {
                *old(self)
            }),
    {
        if self.debug_access_given(session_expired) {
            self.admin_privileges = true;
        }
    }

    /// Withdraws debug authorization and admin privileges.
    pub fn revoke_debug_access(&mut self)
        ensures
            *final(self) == (SecurityContext { debug_mode_authorized: false, admin_privileges: false, ..*old(self) }),
    {
        self.debug_mode_authorized = false;
        self.admin_privileges = false;
    }

    /// One-line status summary.
    pub fn get_security_status(&self) -> (r: String)
        ensures
            exists|expired: bool| r@ == #[trigger] security_status_text(*self, expired),
    {
        let expired = self.is_session_expired();
        self.security_status_given(expired)
    }

    /// One-line status summary, given whether the session has expired.
    pub fn security_status_given(&self, session_expired: bool) -> (r: String)
        ensures
            r@ == security_status_text(*self, session_expired),
    {
        let mut s = String::from_str("SecurityContext: dev=");
        s.append(bool_text(self.development_build));
        s.append(", debug_auth=");
        s.append(bool_text(self.debug_mode_authorized));
        s.append(", admin=");
        s.append(bool_text(self.admin_privileges));
        s.append(", session_valid=");
        s.append(bool_text(!session_expired));
        proof {
            reveal_strlit("SecurityContext: dev=");
            reveal_strlit(", debug_auth=");
            reveal_strlit(", admin=");
            reveal_strlit(", session_valid=");
        }
        s
    }
}

/// The status line of `get_security_status`.
pub open spec fn security_status_text(ctx: SecurityContext, session_expired: bool) -> Seq<char> {
    "SecurityContext: dev="@ + bool_text_spec(ctx.development_build) + ", debug_auth="@
        + bool_text_spec(ctx.debug_mode_authorized) + ", admin="@ + bool_text_spec(ctx.admin_privileges)
        + ", session_valid="@ + bool_text_spec(!session_expired)
}

/// Which debug features are switched on.
#[derive(Debug, Clone, Copy, PartialEq, Eq, Structural)]
pub struct DebugFeatureFlags {
    pub debug_visualization_enabled: bool,
    pub debug_ui_enabled: bool,
    pub cheat_menu_enabled: bool,
    pub console_output_enabled: bool,
    pub wave_selection_enabled: bool,
    pub spawn_rate_controls_enabled: bool,
    pub grid_controls_enabled: bool,
}

/// All flags off.
pub open spec fn no_debug_features() -> DebugFeatureFlags {
    DebugFeatureFlags {
        debug_visualization_enabled: false,
        debug_ui_enabled: false,
        cheat_menu_enabled: false,
        console_output_enabled: false,
        wave_selection_enabled: false,
        spawn_rate_controls_enabled: false,
        grid_controls_enabled: false,
    }
}

/// Some debug feature is on (any of the seven flags).
pub open spec fn any_debug_feature(f: DebugFeatureFlags) -> bool {
    f.debug_visualization_enabled || f.debug_ui_enabled || f.cheat_menu_enabled || f.console_output_enabled
        || f.wave_selection_enabled || f.spawn_rate_controls_enabled || f.grid_controls_enabled
}

impl Default for DebugFeatureFlags {
    /// Secure default: everything off.
    fn default() -> (r: Self)
        ensures
            r == no_debug_features(),
    {
        DebugFeatureFlags {
            debug_visualization_enabled: false,
            debug_ui_enabled: false,
            cheat_menu_enabled: false,
            console_output_enabled: false,
            wave_selection_enabled: false,
            spawn_rate_controls_enabled: false,
            grid_controls_enabled: false,
        }
    }
}

impl DebugFeatureFlags {
    /// Switches on every development feature except the cheat menu.
    pub fn enable_development_features(&mut self)
        ensures
            *final(self) == (DebugFeatureFlags {
                debug_visualization_enabled: true,
                debug_ui_enabled: true,
                cheat_menu_enabled: old(self).cheat_menu_enabled,
                console_output_enabled: true,
                wave_selection_enabled: true,
                spawn_rate_controls_enabled: true,
                grid_controls_enabled: true,
            }),
    {
        self.debug_visualization_enabled = true;
        self.debug_ui_enabled = true;
        self.console_output_enabled = true;
        self.wave_selection_enabled = true;
        self.spawn_rate_controls_enabled = true;
        self.grid_controls_enabled = true;
    }

    /// Switches on the cheat menu.
    pub fn enable_admin_features(&mut self)
        ensures
            *final(self) == (DebugFeatureFlags { cheat_menu_enabled: true, ..*old(self) }),
    {
        self.cheat_menu_enabled = true;
    }

    /// Switches everything off.
    pub fn disable_all_debug_features(&mut self)
        ensures
            *final(self) == no_debug_features(),
    {
        self.debug_visualization_enabled = false;
        self.debug_ui_enabled = false;
        self.cheat_menu_enabled = false;
        self.console_output_enabled = false;
        self.wave_selection_enabled = false;
        self.spawn_rate_controls_enabled = false;
        self.grid_controls_enabled = false;
    }

    /// Whether any debug feature is on.
    pub fn has_any_debug_features_enabled(&self) -> (r: bool)
        ensures
            r == any_debug_feature(*self),
    {
        self.debug_visualization_enabled || self.debug_ui_enabled || self.cheat_menu_enabled
            || self.console_output_enabled || self.wave_selection_enabled || self.spawn_rate_controls_enabled || self.grid_controls_enabled
    }

    /// One-line summary of the flags.
    pub fn get_feature_summary(&self) -> (r: String)
        ensures
            r@ == feature_summary_text(*self),
    {
        let mut s = String::from_str("DebugFeatures: vis=");
        s.append(bool_text(self.debug_visualization_enabled));
        s.append(", ui=");
        s.append(bool_text(self.debug_ui_enabled));
        s.append(", cheat=");
        s.append(bool_text(self.cheat_menu_enabled));
        s.append(", console=");
        s.append(bool_text(self.console_output_enabled));
        s.append(", wave=");
        s.append(bool_text(self.wave_selection_enabled));
        s.append(", spawn=");
        s.append(bool_text(self.spawn_rate_controls_enabled));
        s.append(", grid=");
        s.append(bool_text(self.grid_controls_enabled));
        proof {
            reveal_strlit("DebugFeatures: vis=");
            reveal_strlit(", ui=");
            reveal_strlit(", cheat=");
            reveal_strlit(", console=");
            reveal_strlit(", wave=");
            reveal_strlit(", spawn=");
            reveal_strlit(", grid=");
        }
        s
    }

    /// In a release build no debug feature may be on.
    pub fn validate_security_compliance(&self, release_build: bool) -> (r: Result<(), String>)
        ensures
            r is Err <==> release_build && any_debug_feature(*self),
            r matches Err(msg) ==> msg@ == "Debug features enabled in release build - security violation"@,
    {
        if release_build && self.has_any_debug_features_enabled() {
            return Err(String::from_str("Debug features enabled in release build - security violation"));
        }
        Ok(())
    }
}

/// The feature summary line.
pub open spec fn feature_summary_text(f: DebugFeatureFlags) -> Seq<char> {
    "DebugFeatures: vis="@ + bool_text_spec(f.debug_visualization_enabled) + ", ui="@
        + bool_text_spec(f.debug_ui_enabled) + ", cheat="@ + bool_text_spec(f.cheat_menu_enabled)
        + ", console="@ + bool_text_spec(f.console_output_enabled) + ", wave="@
        + bool_text_spec(f.wave_selection_enabled) + ", spawn="@ + bool_text_spec(f.spawn_rate_controls_enabled)
        + ", grid="@ + bool_text_spec(f.grid_controls_enabled)
}

/// Start-up set-up: a development build authorizes debug mode and switches
/// on the development features; a release build withdraws debug
/// authorization and switches every debug feature off.
pub fn initialize_security_context(ctx: &mut SecurityContext, flags: &mut DebugFeatureFlags, development_build: bool)
    ensures
        *final(ctx) == (SecurityContext { development_build, debug_mode_authorized: development_build, ..*old(ctx) }),
        *final(flags) == (if development_build {
            DebugFeatureFlags {
                debug_visualization_enabled: true,
                debug_ui_enabled: true,
                cheat_menu_enabled: old(flags).cheat_menu_enabled,
                console_output_enabled: true,
                wave_selection_enabled: true,
                spawn_rate_controls_enabled: true,
                grid_controls_enabled: true,
            }
        } else {
            no_debug_features()
        }),
{
    ctx.development_build = development_build;
    ctx.debug_mode_authorized = development_build;
    if development_build {
        flags.enable_development_features();
    } else {
        flags.disable_all_debug_features();
    }
}

/// The admin key in a development build, given whether the debug session
/// (restarted by the key) has expired: when admin privileges are off, debug
/// access is authorized, admin privileges are granted if the session is
/// live, and the cheat menu is switched on; when they are on, they are
/// withdrawn and the cheat menu switched off, debug access staying. Reports
/// the requested admin state; outside a development build nothing changes.
pub fn toggle_admin_given(ctx: &mut SecurityContext, flags: &mut DebugFeatureFlags, session_expired: bool) -> (r: Option<bool>)
    ensures
        toggle_admin_outcome(*old(ctx), *old(flags), session_expired, *final(ctx), *final(flags), r),
{
    if !ctx.development_build {
        return Option::None;
    }
    let new_admin_state = !ctx.admin_privileges;
    if new_admin_state {
        ctx.authorize_debug_access();
        ctx.grant_admin_given(session_expired);
        flags.enable_admin_features();
    } else {
        ctx.admin_privileges = false;
        flags.cheat_menu_enabled = false;
    }
    Option::Some(new_admin_state)
}

/// The admin key by the session clock (see `toggle_admin_given`).
pub fn toggle_admin_privileges(ctx: &mut SecurityContext, flags: &mut DebugFeatureFlags) -> (r: Option<bool>)
    ensures
        exists|expired: bool| #[trigger] toggle_admin_outcome(*old(ctx), *old(flags), expired, *final(ctx), *final(flags), r),
{
    if !ctx.development_build {
        assert(toggle_admin_outcome(*ctx, *flags, false, *ctx, *flags, Option::None));
        return Option::None;
    }
    let ghost c0 = *ctx;
    let ghost f0 = *flags;
    let new_admin_state = !ctx.admin_privileges;
    if new_admin_state {
        ctx.authorize_debug_access();
        let expired = ctx.is_session_expired();
        ctx.grant_admin_given(expired);
        flags.enable_admin_features();
        assert(toggle_admin_outcome(c0, f0, expired, *ctx, *flags, Option::Some(new_admin_state)));
    } else {
        ctx.admin_privileges = false;
        flags.cheat_menu_enabled = false;
        assert(toggle_admin_outcome(c0, f0, false, *ctx, *flags, Option::Some(new_admin_state)));
    }
    Option::Some(new_admin_state)
}

/// What `toggle_admin_given` promises, as one predicate.
pub open spec fn toggle_admin_outcome(
    c0: SecurityContext,
    f0: DebugFeatureFlags,
    session_expired: bool,
    c1: SecurityContext,
    f1: DebugFeatureFlags,
    r: Option<bool>,
) -> bool {
    &&& !c0.development_build ==> r == Option::<bool>::None && c1 == c0 && f1 == f0
    &&& c0.development_build && !c0.admin_privileges ==> {
        &&& r == Option::Some(true)
        &&& c1.development_build && c1.debug_mode_authorized
        &&& c1.admin_privileges == !session_expired
        &&& c1.max_debug_session_nanos == c0.max_debug_session_nanos
        &&& f1 == (DebugFeatureFlags { cheat_menu_enabled: true, ..f0 })
    }
    &&& c0.development_build && c0.admin_privileges ==> {
        &&& r == Option::Some(false)
        &&& c1 == (SecurityContext { admin_privileges: false, ..c0 })
        &&& f1 == (DebugFeatureFlags { cheat_menu_enabled: false, ..f0 })
    }
}

/// Restores admin privileges saved in the settings, in a development build:
/// when the settings say so (and, for the deferred load, only while admin
/// privileges are still off), debug access is authorized, admin privileges
/// granted if the session is live, and the cheat menu switched on.
pub fn restore_admin_given(
    ctx: &mut SecurityContext,
    flags: &mut DebugFeatureFlags,
    debug_admin_enabled: Option<bool>,
    only_if_not_admin: bool,
    session_expired: bool,
) -> (restored: bool)
    ensures
        restored == (old(ctx).development_build && debug_admin_enabled == Option::Some(true) && !(only_if_not_admin
            && old(ctx).admin_privileges)),
        !restored ==> *final(ctx) == *old(ctx) && *final(flags) == *old(flags),
        restored ==> {
            &&& final(ctx).development_build && final(ctx).debug_mode_authorized
            &&& final(ctx).admin_privileges == (old(ctx).admin_privileges || !session_expired)
            &&& *final(flags) == (DebugFeatureFlags { cheat_menu_enabled: true, ..*old(flags) })
        },
{
    if !ctx.development_build {
        return false;
    }
    match debug_admin_enabled {
        Option::Some(true) => {
            if only_if_not_admin && ctx.admin_privileges {
                return false;
            }
            ctx.authorize_debug_access();
            ctx.grant_admin_given(session_expired);
            flags.enable_admin_features();
            true
        },
        _ => false,
    }
}


/// The debug features that access is checked for.
#[derive(Debug, Clone, Copy, PartialEq, Eq, Structural)]
pub enum DebugFeature {
    Visualization,
    DebugUi,
    CheatMenu,
    GridControls,
    WaveSelection,
    SpawnRateControls,
    ConsoleOutput,
}

/// Access to `feature`: its flag is on and, given whether the session has
/// expired, cheat access for the cheat menu, a development build with an
/// unexpired session for console output, and debug access for the rest.
pub open spec fn feature_access(ctx: SecurityContext, flags: DebugFeatureFlags, feature: DebugFeature, expired: bool) -> bool {
    match feature {
        DebugFeature::Visualization => flags.debug_visualization_enabled && debug_access(ctx, expired),
        DebugFeature::DebugUi => flags.debug_ui_enabled && debug_access(ctx, expired),
        DebugFeature::CheatMenu => flags.cheat_menu_enabled && cheat_access(ctx, expired),
        DebugFeature::GridControls => flags.grid_controls_enabled && debug_access(ctx, expired),
        DebugFeature::WaveSelection => flags.wave_selection_enabled && debug_access(ctx, expired),
        DebugFeature::SpawnRateControls => flags.spawn_rate_controls_enabled && debug_access(ctx, expired),
        DebugFeature::ConsoleOutput => flags.console_output_enabled && ctx.development_build && !expired,
    }
}

/// Central access checks for the debug features.
pub struct DebugAuthorization;

impl DebugAuthorization {
    /// F1 debug visualization: its flag is on and debug access is granted now. Reads the session clock only when the flag is on.
    pub fn validate_debug_visualization_access(security_context: &SecurityContext, feature_flags: &DebugFeatureFlags) -> (r: bool)
        ensures
            exists|expired: bool| r == #[trigger] feature_access(*security_context, *feature_flags, DebugFeature::Visualization, expired),
    {
        if !feature_flags.debug_visualization_enabled {
            assert(!feature_access(*security_context, *feature_flags, DebugFeature::Visualization, false));
            return false;
        }
        let expired = security_context.is_session_expired();
        Self::validate_access_given(security_context, feature_flags, DebugFeature::Visualization, expired)
    }

    /// F2 debug panel: its flag is on and debug access is granted now. Reads the session clock only when the flag is on.
    pub fn validate_debug_ui_access(security_context: &SecurityContext, feature_flags: &DebugFeatureFlags) -> (r: bool)
        ensures
            exists|expired: bool| r == #[trigger] feature_access(*security_context, *feature_flags, DebugFeature::DebugUi, expired),
    {
        if !feature_flags.debug_ui_enabled {
            assert(!feature_access(*security_context, *feature_flags, DebugFeature::DebugUi, false));
            return false;
        }
        let expired = security_context.is_session_expired();
        Self::validate_access_given(security_context, feature_flags, DebugFeature::DebugUi, expired)
    }

    /// F9 cheat menu: its flag is on and cheat access is granted now. Reads the session clock only when the flag is on.
    pub fn validate_cheat_menu_access(security_context: &SecurityContext, feature_flags: &DebugFeatureFlags) -> (r: bool)
        ensures
            exists|expired: bool| r == #[trigger] feature_access(*security_context, *feature_flags, DebugFeature::CheatMenu, expired),
    {
        if !feature_flags.cheat_menu_enabled {
            assert(!feature_access(*security_context, *feature_flags, DebugFeature::CheatMenu, false));
            return false;
        }
        let expired = security_context.is_session_expired();
        Self::validate_access_given(security_context, feature_flags, DebugFeature::CheatMenu, expired)
    }

    /// F3 and F4 grid controls: their flag is on and debug access is granted now. Reads the session clock only when the flag is on.
    pub fn validate_grid_controls_access(security_context: &SecurityContext, feature_flags: &DebugFeatureFlags) -> (r: bool)
        ensures
            exists|expired: bool| r == #[trigger] feature_access(*security_context, *feature_flags, DebugFeature::GridControls, expired),
    {
        if !feature_flags.grid_controls_enabled {
            assert(!feature_access(*security_context, *feature_flags, DebugFeature::GridControls, false));
            return false;
        }
        let expired = security_context.is_session_expired();
        Self::validate_access_given(security_context, feature_flags, DebugFeature::GridControls, expired)
    }

    /// Wave selection: its flag is on and debug access is granted now. Reads the session clock only when the flag is on.
    pub fn validate_wave_selection_access(security_context: &SecurityContext, feature_flags: &DebugFeatureFlags) -> (r: bool)
        ensures
            exists|expired: bool| r == #[trigger] feature_access(*security_context, *feature_flags, DebugFeature::WaveSelection, expired),
    {
        if !feature_flags.wave_selection_enabled {
            assert(!feature_access(*security_context, *feature_flags, DebugFeature::WaveSelection, false));
            return false;
        }
        let expired = security_context.is_session_expired();
        Self::validate_access_given(security_context, feature_flags, DebugFeature::WaveSelection, expired)
    }

    /// Spawn rate keys: their flag is on and debug access is granted now. Reads the session clock only when the flag is on.
    pub fn validate_spawn_rate_controls_access(security_context: &SecurityContext, feature_flags: &DebugFeatureFlags) -> (r: bool)
        ensures
            exists|expired: bool| r == #[trigger] feature_access(*security_context, *feature_flags, DebugFeature::SpawnRateControls, expired),
    {
        if !feature_flags.spawn_rate_controls_enabled {
            assert(!feature_access(*security_context, *feature_flags, DebugFeature::SpawnRateControls, false));
            return false;
        }
        let expired = security_context.is_session_expired();
        Self::validate_access_given(security_context, feature_flags, DebugFeature::SpawnRateControls, expired)
    }

    /// Console output: its flag is on in a development build whose session has not expired. Reads the session clock only when the flag is on.
    pub fn validate_console_output_access(security_context: &SecurityContext, feature_flags: &DebugFeatureFlags) -> (r: bool)
        ensures
            exists|expired: bool| r == #[trigger] feature_access(*security_context, *feature_flags, DebugFeature::ConsoleOutput, expired),
    {
        if !feature_flags.console_output_enabled {
            assert(!feature_access(*security_context, *feature_flags, DebugFeature::ConsoleOutput, false));
            return false;
        }
        let expired = security_context.is_session_expired();
        Self::validate_access_given(security_context, feature_flags, DebugFeature::ConsoleOutput, expired)
    }

    /// Whether `feature` may be used, given whether the session has expired
    /// (see `feature_access`).
    pub fn validate_access_given(
        security_context: &SecurityContext,
        feature_flags: &DebugFeatureFlags,
        feature: DebugFeature,
        session_expired: bool,
    ) -> (r: bool)
        ensures
            r == feature_access(*security_context, *feature_flags, feature, session_expired),
    {
        match feature {
            DebugFeature::Visualization => feature_flags.debug_visualization_enabled
                && security_context.debug_access_given(session_expired),
            DebugFeature::DebugUi => feature_flags.debug_ui_enabled && security_context.debug_access_given(session_expired),
            DebugFeature::CheatMenu => feature_flags.cheat_menu_enabled && security_context.cheat_access_given(session_expired),
            DebugFeature::GridControls => feature_flags.grid_controls_enabled
                && security_context.debug_access_given(session_expired),
            DebugFeature::WaveSelection => feature_flags.wave_selection_enabled
                && security_context.debug_access_given(session_expired),
            DebugFeature::SpawnRateControls => feature_flags.spawn_rate_controls_enabled
                && security_context.debug_access_given(session_expired),
            DebugFeature::ConsoleOutput => feature_flags.console_output_enabled && security_context.development_build
                && !session_expired,
        }
    }

    /// Audits the configuration, reading the session clock twice as the checks need it.
    pub fn audit_security_configuration(
        security_context: &SecurityContext,
        feature_flags: &DebugFeatureFlags,
        release_build: bool,
    ) -> (r: SecurityAuditResult)
        ensures
            exists|first: bool, second: bool| #[trigger] audit_matches(r, *security_context, *feature_flags, release_build, first, second),
    {
        let expired_during_check = security_context.debug_mode_authorized && security_context.is_session_expired();
        let expired_at_end = security_context.is_session_expired();
        let r = Self::audit_given(security_context, feature_flags, release_build, expired_during_check, expired_at_end);
        assert(audit_matches(r, *security_context, *feature_flags, release_build, expired_during_check, expired_at_end));
        r
    }

    /// The audit, given whether the session counted as expired for the check of
    /// authorized sessions and for the final validity report.
    pub fn audit_given(
        security_context: &SecurityContext,
        feature_flags: &DebugFeatureFlags,
        release_build: bool,
        expired_during_check: bool,
        expired_at_end: bool,
    ) -> (r: SecurityAuditResult)
        ensures
            audit_matches(r, *security_context, *feature_flags, release_build, expired_during_check, expired_at_end),
    {
        let ghost v1 = release_build && any_debug_feature(*feature_flags);
        let ghost v2 = security_context.debug_mode_authorized && expired_during_check;
        let ghost v3 = security_context.admin_privileges && !security_context.debug_mode_authorized;
        let ghost m1 = "Debug features enabled in release build"@;
        let ghost m2 = "Debug session expired but still authorized"@;
        let ghost m3 = "Admin privileges without debug authorization"@;
        let mut violations: Vec<String> = Vec::new();
        let mut warnings: Vec<String> = Vec::new();
        if release_build && feature_flags.has_any_debug_features_enabled() {
            violations.push(String::from_str("Debug features enabled in release build"));
        }
        assert(violations@.map_values(|s: String| s@) =~= message_if(v1, m1));
        if security_context.debug_mode_authorized && expired_during_check {
            violations.push(String::from_str("Debug session expired but still authorized"));
        }
        assert(violations@.map_values(|s: String| s@) =~= message_if(v1, m1) + message_if(v2, m2));
        if security_context.admin_privileges && !security_context.debug_mode_authorized {
            violations.push(String::from_str("Admin privileges without debug authorization"));
        }
        assert(violations@.map_values(|s: String| s@) =~= message_if(v1, m1) + message_if(v2, m2) + message_if(v3, m3));
        if feature_flags.cheat_menu_enabled && !security_context.admin_privileges {
            warnings.push(String::from_str("Cheat menu enabled without admin privileges"));
        }
        assert(warnings@.map_values(|s: String| s@) =~= message_if(
            feature_flags.cheat_menu_enabled && !security_context.admin_privileges,
            "Cheat menu enabled without admin privileges"@,
        ));
        let features_enabled = feature_flags.has_any_debug_features_enabled();
        SecurityAuditResult { violations, warnings, features_enabled, session_valid: !expired_at_end }
    }
}

/// `msg` when `cond` holds, nothing otherwise.
pub open spec fn message_if(cond: bool, msg: Seq<char>) -> Seq<Seq<char>> {
    if cond { seq![msg] } else { Seq::empty() }
}

/// `r` is the audit of the configuration for the given clock readings.
pub open spec fn audit_matches(
    r: SecurityAuditResult,
    ctx: SecurityContext,
    flags: DebugFeatureFlags,
    release_build: bool,
    expired_during_check: bool,
    expired_at_end: bool,
) -> bool {
    let v1 = release_build && any_debug_feature(flags);
    let v2 = ctx.debug_mode_authorized && expired_during_check;
    let v3 = ctx.admin_privileges && !ctx.debug_mode_authorized;
    let w1 = flags.cheat_menu_enabled && !ctx.admin_privileges;
    &&& r.violations@.map_values(|s: String| s@) == message_if(v1, "Debug features enabled in release build"@)
        + message_if(v2, "Debug session expired but still authorized"@)
        + message_if(v3, "Admin privileges without debug authorization"@)
    &&& r.warnings@.map_values(|s: String| s@) == message_if(w1, "Cheat menu enabled without admin privileges"@)
    &&& r.features_enabled == any_debug_feature(flags)
    &&& r.session_valid == !expired_at_end
}

/// Outcome of a security audit.
#[derive(Debug)]
pub struct SecurityAuditResult {
    pub violations: Vec<String>,
    pub warnings: Vec<String>,
    pub features_enabled: bool,
    pub session_valid: bool,
}

impl Default for SecurityAuditResult {
    fn default() -> (r: Self)
        ensures
            r.violations@.len() == 0,
            r.warnings@.len() == 0,
            !r.features_enabled,
            !r.session_valid,
    {
        SecurityAuditResult { violations: Vec::new(), warnings: Vec::new(), features_enabled: false, session_valid: false }
    }
}

impl SecurityAuditResult {
    /// No violations.
    pub fn is_secure(&self) -> (r: bool)
        ensures
            r == (self.violations@.len() == 0),
    {
        self.violations.len() == 0
    }

    /// One-line summary of the audit.
    pub fn get_summary(&self) -> (r: String)
        ensures
            r@ == (if self.violations@.len() == 0 {
                "Security audit PASSED: "@ + decimal_text(self.warnings@.len()) + " warnings, features="@
                    + bool_text_spec(self.features_enabled) + ", session_valid="@ + bool_text_spec(self.session_valid)
            } else {
                "Security audit FAILED: "@ + decimal_text(self.violations@.len()) + " violations, "@
                    + decimal_text(self.warnings@.len()) + " warnings"@
            }),
    {
        proof {
            reveal_strlit("Security audit PASSED: ");
            reveal_strlit(" warnings, features=");
            reveal_strlit(", session_valid=");
            reveal_strlit("Security audit FAILED: ");
            reveal_strlit(" violations, ");
            reveal_strlit(" warnings");
        }
        if self.is_secure() {
            let mut s = String::from_str("Security audit PASSED: ");
            let n = decimal_string(self.warnings.len());
            s.append(n.as_str());
            s.append(" warnings, features=");
            s.append(bool_text(self.features_enabled));
            s.append(", session_valid=");
            s.append(bool_text(self.session_valid));
            s
        } else {
            let mut s = String::from_str("Security audit FAILED: ");
            let v = decimal_string(self.violations.len());
            s.append(v.as_str());
            s.append(" violations, ");
            let w = decimal_string(self.warnings.len());
            s.append(w.as_str());
            s.append(" warnings");
            s
        }
    }
}

} // verus!
