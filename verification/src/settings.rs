//! Persisted settings and the precedence merge: explicit command input
//! wins over persisted settings, which win over built-in defaults.
use vstd::prelude::*;

verus! {

/// Optional persisted overrides. Every field may be absent.
#[derive(Debug)]
pub struct Settings {
    pub default_client: Option<String>,
    pub default_account: Option<String>,
    pub default_role: Option<String>,
    pub unified_mode: Option<bool>,
    pub set_default: Option<bool>,
    pub list: Option<bool>,
    pub recent: Option<bool>,
    pub max_recent_profiles: Option<usize>,
    pub force_reauth: Option<bool>,
    pub check_session: Option<bool>,
    pub browser: Option<String>,
    pub aws_config_path: Option<String>,
}

impl Default for Settings {
    fn default() -> (r: Self)
        ensures
            r.default_client is None,
            r.default_account is None,
            r.default_role is None,
            r.unified_mode is None,
            r.set_default is None,
            r.list is None,
            r.recent is None,
            r.max_recent_profiles is None,
            r.force_reauth is None,
            r.check_session is None,
            r.browser is None,
            r.aws_config_path is None,
    {
        Settings {
            default_client: None,
            default_account: None,
            default_role: None,
            unified_mode: None,
            set_default: None,
            list: None,
            recent: None,
            max_recent_profiles: None,
            force_reauth: None,
            check_session: None,
            browser: None,
            aws_config_path: None,
        }
    }
}

/// What the operator asked for on this run, before settings fill the gaps.
#[derive(Debug)]
pub struct AuthRequest {
    pub client: Option<String>,
    pub account: Option<String>,
    pub role: Option<String>,
    pub unified: bool,
    pub step_by_step: bool,
    pub set_default: bool,
    pub list: bool,
    pub recent: bool,
    pub force_reauth: bool,
    pub console: bool,
}

/// The merged values one run works with.
#[derive(Debug)]
pub struct EffectiveOptions {
    pub client: Option<String>,
    pub account: Option<String>,
    pub role: Option<String>,
    pub unified_mode: bool,
    pub set_default: bool,
    pub list: bool,
    pub recent: bool,
    pub force_reauth: bool,
    pub check_session: bool,
    pub console: bool,
    pub max_recent_profiles: usize,
    pub browser: Option<String>,
}

fn clone_opt(o: &Option<String>) -> (r: Option<String>)
    ensures
        r == *o,
{
    match o {
        Some(s) => Some(s.clone()),
        None => None,
    }
}

/// Merges explicit request values with persisted settings: a request value
/// wins; a missing one falls back to the setting, then to the built-in
/// default. Step-by-step explicitly requested turns unified mode off.
pub fn merge_settings(args: &AuthRequest, settings: &Settings) -> (r: EffectiveOptions)
    ensures
        r.client == if args.client is Some {
            args.client
        } else {
            settings.default_client
        },
        r.account == if args.account is Some {
            args.account
        } else {
            settings.default_account
        },
        r.role == if args.role is Some {
            args.role
        } else {
            settings.default_role
        },
        r.unified_mode == if args.step_by_step {
            false
        } else {
            args.unified || settings.unified_mode == Some(true)
        },
        r.set_default == (args.set_default || settings.set_default == Some(true)),
        r.list == (args.list || settings.list == Some(true)),
        r.recent == (args.recent || settings.recent == Some(true)),
        r.force_reauth == (args.force_reauth || settings.force_reauth == Some(true)),
        r.check_session == (match settings.check_session {
            Some(b) => b,
            None => true,
        }),
        r.console == args.console,
        r.max_recent_profiles == (match settings.max_recent_profiles {
            Some(n) => n,
            None => 100usize,
        }),
        r.browser == settings.browser,
{
    let client = match clone_opt(&args.client) {
        Some(c) => Some(c),
        None => clone_opt(&settings.default_client),
    };
    let account = match clone_opt(&args.account) {
        Some(a) => Some(a),
        None => clone_opt(&settings.default_account),
    };
    let role = match clone_opt(&args.role) {
        Some(x) => Some(x),
        None => clone_opt(&settings.default_role),
    };
    let unified_mode = if args.step_by_step {
        false
    } else {
        args.unified || (match settings.unified_mode {
            Some(b) => b,
            None => false,
        })
    };
    EffectiveOptions {
        client,
        account,
        role,
        unified_mode,
        set_default: args.set_default || (match settings.set_default {
            Some(b) => b,
            None => false,
        }),
        list: args.list || (match settings.list {
            Some(b) => b,
            None => false,
        }),
        recent: args.recent || (match settings.recent {
            Some(b) => b,
            None => false,
        }),
        force_reauth: args.force_reauth || (match settings.force_reauth {
            Some(b) => b,
            None => false,
        }),
        check_session: match settings.check_session {
            Some(b) => b,
            None => true,
        },
        console: args.console,
        max_recent_profiles: match settings.max_recent_profiles {
            Some(n) => n,
            None => 100,
        },
        browser: clone_opt(&settings.browser),
    }
}

} // verus!
