use migoto_loader::config::{ini_path, join_path, load_config, ConfigError};

const WH_CBT: i32 = 5;

#[test]
fn ini_path_with_and_without_dir() {
    assert_eq!(ini_path(""), "d3dx.ini");
    assert_eq!(ini_path("C:\\3dm"), "C:\\3dm\\d3dx.ini");
}

#[test]
fn join_path_keeps_name_without_dir() {
    assert_eq!(join_path("", "d3d11.dll"), "d3d11.dll");
    assert_eq!(join_path("mods", "d3d11.dll"), "mods\\d3d11.dll");
}

#[test]
fn missing_loader_section() {
    let r = load_config("[Device]\ntarget=a.exe\n", "", "", WH_CBT);
    assert_eq!(r.err(), Some(ConfigError::MissingLoaderSection));
}

#[test]
fn missing_target() {
    let r = load_config("[Loader]\nmodule=d3d11.dll\n", "", "", WH_CBT);
    assert_eq!(r.err(), Some(ConfigError::MissingTarget));
}

#[test]
fn missing_module() {
    let r = load_config("[Loader]\ntarget=game.exe\n", "", "", WH_CBT);
    assert_eq!(r.err(), Some(ConfigError::MissingModule));
}

#[test]
fn target_is_checked_before_module() {
    let r = load_config("[Loader]\n", "", "", WH_CBT);
    assert_eq!(r.err(), Some(ConfigError::MissingTarget));
}

#[test]
fn defaults() {
    let c = load_config("[Loader]\ntarget=game.exe\nmodule=d3d11.dll\n", "", "", WH_CBT).ok().unwrap();
    assert_eq!(c.target, "game.exe");
    assert_eq!(c.module_file, "d3d11.dll");
    assert!(c.check_version);
    assert!(!c.require_admin);
    assert_eq!(c.entry_point, "CBTProc");
    assert_eq!(c.hook_proc, WH_CBT);
    assert!(c.wait_for_target);
    assert_eq!(c.delay, 0);
    assert!(!c.use_inject);
}

#[test]
fn every_setting_read() {
    let ini = "[Loader]\ntarget = Endfield.exe\nmodule = d3d11.dll\ncheck_version = 0\nrequire_admin = yes\nentry_point = MyProc\nhook_proc = 4\nwait_for_target = off\ndelay = -1\n";
    let c = load_config(ini, "C:\\3dm", "INJECT", WH_CBT).ok().unwrap();
    assert_eq!(c.target, "Endfield.exe");
    assert_eq!(c.module_file, "C:\\3dm\\d3d11.dll");
    assert!(!c.check_version);
    assert!(c.require_admin);
    assert_eq!(c.entry_point, "MyProc");
    assert_eq!(c.hook_proc, 4);
    assert!(!c.wait_for_target);
    assert_eq!(c.delay, -1);
    assert!(c.use_inject);
}

#[test]
fn loader_mode_other_than_inject_means_hook() {
    let ini = "[Loader]\ntarget=g.exe\nmodule=m.dll\n";
    assert!(load_config(ini, "", "Inject", WH_CBT).ok().unwrap().use_inject);
    assert!(!load_config(ini, "", "hook", WH_CBT).ok().unwrap().use_inject);
    assert!(!load_config(ini, "", "injector", WH_CBT).ok().unwrap().use_inject);
    assert!(!load_config(ini, "", " inject", WH_CBT).ok().unwrap().use_inject);
}

#[test]
fn bad_numbers_fall_back_to_defaults() {
    let ini = "[Loader]\ntarget=g.exe\nmodule=m.dll\nhook_proc=cbt\ndelay=ten\n";
    let c = load_config(ini, "", "", 13).ok().unwrap();
    assert_eq!(c.hook_proc, 13);
    assert_eq!(c.delay, 0);
}
