//! The loader's settings: where `d3dx.ini` and the 3DMigoto module are, and
//! what the `[Loader]` section of `d3dx.ini` asks for.
use vstd::prelude::*;
use crate::ini::{
    bool_setting, find_bool, find_int, find_section, find_setting, int_setting, section_body,
    setting_value,
};
use crate::text::{chars_of, eq_ignore_ascii_case, eq_ignore_case_range};

verus! {

/// `dir\name`, or just `name` when no directory is given.
pub open spec fn path_in(dir: Seq<char>, name: Seq<char>) -> Seq<char> {
    if dir.len() == 0 {
        name
    } else {
        dir + seq!['\\'] + name
    }
}

/// Joins a directory given on the command line and a file name inside it.
pub fn join_path(dir: &str, name: &str) -> (r: String)
    ensures
        r@ == path_in(dir@, name@),
{
    if dir.is_empty() {
        String::from_str(name)
    } else {
        let mut r = String::from_str(dir);
        r.append("\\");
        r.append(name);
        proof {
            reveal_strlit("\\");
        }
        assert(r@ =~= dir@ + seq!['\\'] + name@);
        r
    }
}

/// Path of `d3dx.ini` inside the directory given on the command line (the
/// working directory when none is given).
pub fn ini_path(dir: &str) -> (r: String)
    ensures
        r@ == path_in(dir@, "d3dx.ini"@),
{
    join_path(dir, "d3dx.ini")
}

/// Why the `[Loader]` section could not be used.
#[derive(PartialEq, Eq, Structural, Clone, Copy, Debug)]
pub enum ConfigError {
    /// `d3dx.ini` has no `[Loader]` section.
    MissingLoaderSection,
    /// `[Loader]` has no `target` setting.
    MissingTarget,
    /// `[Loader]` has no `module` setting.
    MissingModule,
}

/// What the loader is to do, as `d3dx.ini` and the environment set it.
pub struct LoaderConfig {
    /// The game executable to wait for.
    pub target: String,
    /// Path of the 3DMigoto module to load.
    pub module_file: String,
    /// Check the module's version resource before loading it.
    pub check_version: bool,
    /// Restart elevated when not running as administrator.
    pub require_admin: bool,
    /// Exported hook procedure of the module.
    pub entry_point: String,
    /// Windows hook type to install the module with.
    pub hook_proc: i32,
    /// Keep waiting for the target to start.
    pub wait_for_target: bool,
    /// Seconds to keep running after the target was found; -1 for ever.
    pub delay: i32,
    /// Inject the module into the target instead of installing a hook.
    pub use_inject: bool,
}

/// What `load_config` yields for the contents of `d3dx.ini`, the directory
/// given on the command line and the value of `LOADER_MODE`.
pub open spec fn config_matches(
    c: LoaderConfig,
    body: Seq<char>,
    dir: Seq<char>,
    target: Seq<char>,
    module: Seq<char>,
    loader_mode: Seq<char>,
    default_hook_proc: i32,
) -> bool {
    &&& c.target@ == target
    &&& c.module_file@ == path_in(dir, module)
    &&& c.check_version == bool_setting(body, "check_version"@, true)
    &&& c.require_admin == bool_setting(body, "require_admin"@, false)
    &&& c.entry_point@ == match setting_value(body, "entry_point"@) {
        Some(e) => e,
        None => "CBTProc"@,
    }
    &&& c.hook_proc == int_setting(body, "hook_proc"@, default_hook_proc)
    &&& c.wait_for_target == bool_setting(body, "wait_for_target"@, true)
    &&& c.delay == int_setting(body, "delay"@, 0)
    &&& c.use_inject == eq_ignore_ascii_case(loader_mode, "inject"@)
}

/// Reads the `[Loader]` section of `ini_content`. `target` and `module` are
/// required; `check_version` (default on), `require_admin` (off),
/// `entry_point` (`CBTProc`), `hook_proc` (`default_hook_proc`),
/// `wait_for_target` (on) and `delay` (0) are optional. The module is looked
/// for in `dir` when one is given. `LOADER_MODE` set to `inject` (in any ASCII
/// case) selects injection; anything else selects the hook.
pub fn load_config(ini_content: &str, dir: &str, loader_mode: &str, default_hook_proc: i32) -> (r:
    Result<LoaderConfig, ConfigError>)
    ensures
        match section_body(ini_content@, "Loader"@) {
            None => r == Err::<LoaderConfig, ConfigError>(ConfigError::MissingLoaderSection),
            Some(body) => match setting_value(body, "target"@) {
                None => r == Err::<LoaderConfig, ConfigError>(ConfigError::MissingTarget),
                Some(target) => match setting_value(body, "module"@) {
                    None => r == Err::<LoaderConfig, ConfigError>(ConfigError::MissingModule),
                    Some(module) => r matches Ok(c) && config_matches(
                        c,
                        body,
                        dir@,
                        target,
                        module,
                        loader_mode@,
                        default_hook_proc,
                    ),
                },
            },
        },
{
    let section = match find_section(ini_content, "Loader") {
        Some(s) => s,
        None => {
            return Err(ConfigError::MissingLoaderSection);
        },
    };
    let target = match find_setting(section, "target") {
        Some(t) => t,
        None => {
            return Err(ConfigError::MissingTarget);
        },
    };
    let module = match find_setting(section, "module") {
        Some(m) => m,
        None => {
            return Err(ConfigError::MissingModule);
        },
    };
    let module_file = join_path(dir, module);
    let check_version = find_bool(section, "check_version", true);
    let require_admin = find_bool(section, "require_admin", false);
    let entry_point = match find_setting(section, "entry_point") {
        Some(e) => String::from_str(e),
        None => String::from_str("CBTProc"),
    };
    let hook_proc = find_int(section, "hook_proc", default_hook_proc);
    let wait_for_target = find_bool(section, "wait_for_target", true);
    let delay = find_int(section, "delay", 0);
    let mode = chars_of(loader_mode);
    let inject = chars_of("inject");
    let use_inject = eq_ignore_case_range(&mode, 0, mode.len(), &inject);
    assert(mode@.subrange(0, mode@.len() as int) =~= loader_mode@);
    Ok(
        LoaderConfig {
            target: String::from_str(target),
            module_file,
            check_version,
            require_admin,
            entry_point,
            hook_proc,
            wait_for_target,
            delay,
            use_inject,
        },
    )
}

} // verus!
