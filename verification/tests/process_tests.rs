use migoto_loader::process::{
    elevation_outcome, injection_outcome, needs_elevation, ElevationOutcome, HookWatch,
    InjectWatch, InjectionOutcome, ModuleEntry, TargetAction, TargetWait, ThreadWait, WaitPhase,
};

fn wide(s: &str) -> Vec<u16> {
    let mut v: Vec<u16> = s.encode_utf16().collect();
    v.resize(260, 0);
    v
}

fn entry(name: &str, path: &str) -> ModuleEntry {
    ModuleEntry { name: wide(name), path: wide(path) }
}

const MODULE: &str = "C:\\3DMigoto\\d3d11.dll";
const GAME: &str = "C:\\Games\\Endfield\\Endfield.exe";

#[test]
fn target_matches_file_name_in_any_case() {
    let w = HookWatch::new("Endfield.exe", MODULE);
    assert!(w.is_target(&wide("endfield.EXE")));
    assert!(!w.is_target(&wide("other.exe")));
    let w = HookWatch::new("D:\\bin\\Game.exe", MODULE);
    assert!(w.is_target(&wide("game.exe")));
    assert!(!w.is_target(&wide("D:\\bin\\Game.exe")));
    let i = InjectWatch::new("x\\GAME.EXE");
    assert!(i.is_target(&wide("game.exe")));
}

#[test]
fn first_sighting_only_once() {
    let mut w = HookWatch::new("game.exe", MODULE);
    assert!(w.first_sighting(10));
    assert!(!w.first_sighting(10));
    assert!(w.first_sighting(11));
}

#[test]
fn our_module_found_and_reported_once() {
    let mut w = HookWatch::new("Endfield.exe", MODULE);
    let mods = vec![entry("kernel32.dll", "C:\\Windows\\System32\\kernel32.dll"), entry("D3D11.dll", "c:\\3dmigoto\\D3D11.DLL")];
    let r = w.check_modules(7, &wide(GAME), &mods);
    assert!(r.loaded);
    assert!(r.newly_loaded);
    assert_eq!(r.second_copy, None);
    let r = w.check_modules(7, &wide(GAME), &mods);
    assert!(r.loaded);
    assert!(!r.newly_loaded);
}

#[test]
fn system_d3d11_is_not_ours() {
    let mut w = HookWatch::new("Endfield.exe", MODULE);
    let mods = vec![entry("d3d11.dll", "C:\\Windows\\System32\\d3d11.dll")];
    let r = w.check_modules(7, &wide(GAME), &mods);
    assert!(!r.loaded);
    assert!(!r.newly_loaded);
    assert_eq!(r.second_copy, None);
}

#[test]
fn second_copy_in_game_directory_stops_the_scan() {
    let mut w = HookWatch::new("Endfield.exe", MODULE);
    let mods = vec![
        entry("d3d11.dll", "C:\\Games\\Endfield\\d3d11.dll"),
        entry("d3d11.dll", "C:\\3DMigoto\\d3d11.dll"),
    ];
    let r = w.check_modules(8, &wide(GAME), &mods);
    assert_eq!(r.second_copy, Some(0));
    assert!(!r.loaded);
    let mods = vec![
        entry("d3d11.dll", "C:\\3DMigoto\\d3d11.dll"),
        entry("d3d11.dll", "c:\\games\\endfield\\D3D11.dll"),
    ];
    let r = w.check_modules(9, &wide(GAME), &mods);
    assert_eq!(r.second_copy, Some(1));
    assert!(r.loaded);
    assert!(r.newly_loaded);
}

#[test]
fn inject_watch_flow() {
    let mut w = InjectWatch::new("game.exe");
    assert_eq!(w.on_target(3), TargetAction::Inject { announce: true });
    assert_eq!(w.on_target(3), TargetAction::Inject { announce: false });
    w.on_injected(3);
    assert_eq!(w.on_target(3), TargetAction::AlreadyInjected);
    assert_eq!(w.on_target(4), TargetAction::Inject { announce: true });
}

#[test]
fn wait_polls_then_counts_down() {
    let mut w = TargetWait::new(true, 3);
    assert_eq!(w.phase, WaitPhase::Polling);
    w.after_poll(false);
    assert_eq!(w.phase, WaitPhase::Polling);
    w.after_poll(true);
    assert_eq!(w.phase, WaitPhase::Countdown(3));
    w.after_tick();
    assert_eq!(w.phase, WaitPhase::Countdown(2));
    w.after_tick();
    assert_eq!(w.phase, WaitPhase::Countdown(1));
    w.after_tick();
    assert_eq!(w.phase, WaitPhase::Finished);
    w.after_tick();
    assert_eq!(w.phase, WaitPhase::Finished);
}

#[test]
fn wait_for_ever_keeps_polling() {
    let mut w = TargetWait::new(false, -1);
    assert_eq!(w.phase, WaitPhase::Polling);
    w.after_poll(true);
    assert_eq!(w.phase, WaitPhase::Polling);
}

#[test]
fn no_wait_and_no_delay_finishes_at_once() {
    assert_eq!(TargetWait::new(false, 0).phase, WaitPhase::Finished);
    assert_eq!(TargetWait::new(false, -5).phase, WaitPhase::Finished);
    assert_eq!(TargetWait::new(false, 2).phase, WaitPhase::Countdown(2));
    let mut w = TargetWait::new(true, 0);
    w.after_poll(true);
    assert_eq!(w.phase, WaitPhase::Finished);
}

#[test]
fn injection_outcomes() {
    assert_eq!(injection_outcome(ThreadWait::Signaled, Some(0x7ff0_0000)), InjectionOutcome::Loaded);
    assert_eq!(injection_outcome(ThreadWait::Signaled, Some(0)), InjectionOutcome::LoadLibraryFailed);
    assert_eq!(injection_outcome(ThreadWait::Signaled, None), InjectionOutcome::LoadLibraryFailed);
    assert_eq!(injection_outcome(ThreadWait::TimedOut, Some(1)), InjectionOutcome::TimedOut);
    assert_eq!(injection_outcome(ThreadWait::Failed, None), InjectionOutcome::WaitFailed);
}

#[test]
fn elevation_outcomes() {
    assert_eq!(elevation_outcome(42), ElevationOutcome::Restarted);
    assert_eq!(elevation_outcome(33), ElevationOutcome::Restarted);
    assert_eq!(elevation_outcome(32), ElevationOutcome::Failed);
    assert_eq!(elevation_outcome(5), ElevationOutcome::AccessDenied);
    assert_eq!(elevation_outcome(0), ElevationOutcome::Failed);
    assert!(needs_elevation(Some(false)));
    assert!(!needs_elevation(Some(true)));
    assert!(!needs_elevation(None));
}
