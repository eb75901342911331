//! The decisions of the loader while it watches for the target process:
//! which processes are the target, whether 3DMigoto is loaded in one, when to
//! inject, when to stop waiting, and what a failed call means.
use vstd::prelude::*;
use std::collections::HashSet;
use crate::text::{
    chars_of, copy_range, first_index, last_index, lower_seq, lower_vec, rfind_char, same_chars,
};
use crate::wide::{decode_utf16_lossy, until_nul, wstr_to_string};

verus! {

broadcast use vstd::std_specs::hash::group_hash_axioms;

/// Milliseconds between two scans for the target while a hook is installed.
pub const HOOK_POLL_INTERVAL_MS: u32 = 1000;

/// Milliseconds between two scans for the target while injecting.
pub const INJECT_POLL_INTERVAL_MS: u32 = 100;

/// Milliseconds between two steps of the shutdown countdown.
pub const COUNTDOWN_STEP_MS: u32 = 1000;

/// Milliseconds to wait for the remote `LoadLibraryW` thread.
pub const INJECTION_TIMEOUT_MS: u32 = 15000;

/// The part of a path after its last `\`.
pub open spec fn file_name_of(p: Seq<char>) -> Seq<char> {
    match last_index(p, '\\') {
        Some(i) => p.skip(i + 1),
        None => p,
    }
}

/// The part of a path up to and including its last `\` (all of it when it has none).
pub open spec fn dir_of(p: Seq<char>) -> Seq<char> {
    match last_index(p, '\\') {
        Some(i) => p.take(i + 1),
        None => p,
    }
}

/// A NUL-terminated wide string of the Windows API, read as text and lower-cased.
pub open spec fn wide_lower(w: Seq<u16>) -> Seq<char> {
    lower_seq(decode_utf16_lossy(until_nul(w)))
}

/// Lower-cased file name of a path.
fn file_name_lower(p: &Vec<char>) -> (r: Vec<char>)
    ensures
        r@ == lower_seq(file_name_of(p@)),
{
    let n = p.len();
    let name = match rfind_char(p, '\\') {
        Some(i) => {
            proof {
                crate::text::lemma_last_index(p@, '\\');
            }
            assert(i < n);
            assert(p@.subrange(i + 1, p@.len() as int) =~= p@.skip(i + 1));
            copy_range(p, i + 1, p.len())
        },
        None => {
            assert(p@.subrange(0, p@.len() as int) =~= p@);
            copy_range(p, 0, p.len())
        },
    };
    lower_vec(&name)
}

/// Directory part of a path.
fn dir_chars(p: &Vec<char>) -> (r: Vec<char>)
    ensures
        r@ == dir_of(p@),
{
    let n = p.len();
    match rfind_char(p, '\\') {
        Some(i) => {
            proof {
                crate::text::lemma_last_index(p@, '\\');
            }
            assert(i < n);
            assert(p@.subrange(0, i + 1) =~= p@.take(i + 1));
            copy_range(p, 0, i + 1)
        },
        None => {
            assert(p@.subrange(0, p@.len() as int) =~= p@);
            copy_range(p, 0, p.len())
        },
    }
}

/// A wide string of the Windows API as lower-case chars.
fn wide_lower_chars(w: &[u16]) -> (r: Vec<char>)
    ensures
        r@ == wide_lower(w@),
{
    let s = wstr_to_string(w);
    lower_vec(&chars_of(s.as_str()))
}

/// One module of a process, as the module snapshot lists it.
pub struct ModuleEntry {
    /// The module's file name (`szModule`).
    pub name: Vec<u16>,
    /// The module's full path (`szExePath`).
    pub path: Vec<u16>,
}

/// What a module of the target process is to the loader.
#[derive(PartialEq, Eq, Structural, Clone, Copy, Debug)]
pub enum ModuleKind {
    /// Another module.
    Unrelated,
    /// The 3DMigoto module this loader loaded.
    Ours,
    /// A module of the same name loaded from the game's own directory.
    SecondCopy,
}

/// How a module of the target is classified, given the path of our module and
/// the lower-cased directory of the game executable.
pub open spec fn module_kind(module: Seq<char>, exe_dir: Seq<char>, e: ModuleEntry) -> ModuleKind {
    let name = wide_lower(e.name@);
    let path = wide_lower(e.path@);
    if name != lower_seq(file_name_of(module)) {
        ModuleKind::Unrelated
    } else if path == lower_seq(module) {
        ModuleKind::Ours
    } else if dir_of(path) == exe_dir {
        ModuleKind::SecondCopy
    } else {
        ModuleKind::Unrelated
    }
}

/// The classification of each module in order.
pub open spec fn module_kinds(module: Seq<char>, exe_dir: Seq<char>, modules: Seq<ModuleEntry>) -> Seq<
    ModuleKind,
> {
    modules.map_values(|e: ModuleEntry| module_kind(module, exe_dir, e))
}

/// Where the scan of the modules ends: at the first second copy, or after the last module.
pub open spec fn scan_end(kinds: Seq<ModuleKind>) -> int {
    match first_index(kinds, ModuleKind::SecondCopy) {
        Some(k) => k,
        None => kinds.len() as int,
    }
}

/// Our module was seen before the scan ended.
pub open spec fn scan_found_ours(kinds: Seq<ModuleKind>) -> bool {
    exists|k: int| 0 <= k < scan_end(kinds) && kinds[k] == ModuleKind::Ours
}

/// Only a module with the file name of ours (up to ASCII case) is ever taken
/// for ours or for a second copy; ours has our full path, and a second copy
/// has another path in the game's directory.
pub proof fn only_our_name_counts(module: Seq<char>, exe_dir: Seq<char>, e: ModuleEntry)
    ensures
        module_kind(module, exe_dir, e) != ModuleKind::Unrelated ==> wide_lower(e.name@)
            == lower_seq(file_name_of(module)),
        module_kind(module, exe_dir, e) == ModuleKind::Ours ==> wide_lower(e.path@) == lower_seq(
            module,
        ),
        module_kind(module, exe_dir, e) == ModuleKind::SecondCopy ==> dir_of(wide_lower(e.path@))
            == exe_dir && wide_lower(e.path@) != lower_seq(module),
        wide_lower(e.name@) == lower_seq(file_name_of(module)) && wide_lower(e.path@) == lower_seq(
            module,
        ) ==> module_kind(module, exe_dir, e) == ModuleKind::Ours,
        wide_lower(e.name@) == lower_seq(file_name_of(module)) && wide_lower(e.path@) != lower_seq(
            module,
        ) && dir_of(wide_lower(e.path@)) == exe_dir ==> module_kind(module, exe_dir, e)
            == ModuleKind::SecondCopy,
        dir_of(wide_lower(e.path@)) != exe_dir && wide_lower(e.path@) != lower_seq(module)
            ==> module_kind(module, exe_dir, e) == ModuleKind::Unrelated,
{
}

/// When no module of a process has the file name of ours, the scan finds
/// neither our module nor a second copy, wherever those modules are loaded from.
pub proof fn other_names_are_ignored(module: Seq<char>, exe_dir: Seq<char>, modules: Seq<ModuleEntry>)
    requires
        forall|i: int| 0 <= i < modules.len() ==> wide_lower(#[trigger] modules[i].name@) != lower_seq(
            file_name_of(module),
        ),
    ensures
        scan_end(module_kinds(module, exe_dir, modules)) == modules.len(),
        !scan_found_ours(module_kinds(module, exe_dir, modules)),
{
    let kinds = module_kinds(module, exe_dir, modules);
    assert forall|i: int| 0 <= i < kinds.len() implies kinds[i] == ModuleKind::Unrelated by {
        assert(kinds[i] == module_kind(module, exe_dir, modules[i]));
    }
    crate::text::lemma_first_index(kinds, ModuleKind::SecondCopy);
}

/// A process whose executable name is the target's file name up to ASCII
/// case is the target, and only such a process is.
pub proof fn target_name_ignores_case(exe_file: Seq<u16>, target: Seq<char>)
    ensures
        (wide_lower(exe_file) == lower_seq(file_name_of(target))) <==> ({
            let n = decode_utf16_lossy(until_nul(exe_file));
            let t = file_name_of(target);
            n.len() == t.len() && forall|i: int|
                0 <= i < n.len() ==> #[trigger] crate::text::same_ignoring_ascii_case(n[i], t[i])
        }),
{
    crate::text::lower_equal_iff_same_ignoring_case(
        decode_utf16_lossy(until_nul(exe_file)),
        file_name_of(target),
    );
}

/// The outcome of checking the modules of one target process.
pub struct ModuleCheck {
    /// Our module is loaded in the process.
    pub loaded: bool,
    /// It is the first time our module was found in this process.
    pub newly_loaded: bool,
    /// Index of a second copy of 3DMigoto loaded from the game's directory; the
    /// loader must stop, as the game may crash.
    pub second_copy: Option<usize>,
}

/// A target executable and its lower-cased file name.
struct TargetName {
    path: String,
    name: Vec<char>,
}

impl TargetName {
    #[verifier::type_invariant]
    closed spec fn name_matches(&self) -> bool {
        self.name@ == lower_seq(file_name_of(self.path@))
    }

    fn new(target: &str) -> (r: Self)
        ensures
            r.path@ == target@,
    {
        TargetName { path: String::from_str(target), name: file_name_lower(&chars_of(target)) }
    }

    /// Whether an executable file name is the target's, without regard to ASCII case.
    fn matches(&self, exe_file: &[u16]) -> (r: bool)
        ensures
            r == (wide_lower(exe_file@) == lower_seq(file_name_of(self.path@))),
    {
        proof {
            use_type_invariant(self);
        }
        let name = wide_lower_chars(exe_file);
        same_chars(&name, self.name.as_slice())
    }
}

/// The path of our module with its lower-cased file name and full path.
struct ModuleName {
    path: String,
    name: Vec<char>,
    norm: Vec<char>,
}

impl ModuleName {
    #[verifier::type_invariant]
    closed spec fn names_match(&self) -> bool {
        &&& self.name@ == lower_seq(file_name_of(self.path@))
        &&& self.norm@ == lower_seq(self.path@)
    }

    fn new(module: &str) -> (r: Self)
        ensures
            r.path@ == module@,
    {
        let m = chars_of(module);
        ModuleName { path: String::from_str(module), name: file_name_lower(&m), norm: lower_vec(&m) }
    }

    /// How the module `e` of a process is classified.
    fn classify(&self, exe_dir: &Vec<char>, e: &ModuleEntry) -> (r: ModuleKind)
        ensures
            r == module_kind(self.path@, exe_dir@, *e),
    {
        proof {
            use_type_invariant(self);
        }
        let name = wide_lower_chars(e.name.as_slice());
        if !same_chars(&name, self.name.as_slice()) {
            ModuleKind::Unrelated
        } else {
            let path = wide_lower_chars(e.path.as_slice());
            if same_chars(&path, self.norm.as_slice()) {
                ModuleKind::Ours
            } else if same_chars(&dir_chars(&path), exe_dir.as_slice()) {
                ModuleKind::SecondCopy
            } else {
                ModuleKind::Unrelated
            }
        }
    }
}

/// What the hook-mode loader keeps while it watches for the target.
pub struct HookWatch {
    target: TargetName,
    module: ModuleName,
    seen: HashSet<u32>,
    injected: HashSet<u32>,
}

impl HookWatch {
    /// The target executable being watched for.
    pub closed spec fn target(&self) -> Seq<char> {
        self.target.path@
    }

    /// Full path of our module.
    pub closed spec fn module(&self) -> Seq<char> {
        self.module.path@
    }

    /// Processes of the target seen so far.
    pub closed spec fn seen(&self) -> Set<u32> {
        self.seen@
    }

    /// Processes in which our module was found loaded.
    pub closed spec fn injected(&self) -> Set<u32> {
        self.injected@
    }

    /// Starts watching for `target` with the module at `module` loaded.
    pub fn new(target: &str, module: &str) -> (r: Self)
        ensures
            r.target() == target@,
            r.module() == module@,
            r.seen() == Set::<u32>::empty(),
            r.injected() == Set::<u32>::empty(),
    {
        HookWatch {
            target: TargetName::new(target),
            module: ModuleName::new(module),
            seen: HashSet::new(),
            injected: HashSet::new(),
        }
    }

    /// Whether a process with this executable file name is the target: the
    /// names compared without regard to ASCII case, the target's directory ignored.
    pub fn is_target(&self, exe_file: &[u16]) -> (r: bool)
        ensures
            r == (wide_lower(exe_file@) == lower_seq(file_name_of(self.target()))),
    {
        self.target.matches(exe_file)
    }

    /// Records that process `pid` of the target was seen; true the first time,
    /// when its executable path is worth reporting.
    pub fn first_sighting(&mut self, pid: u32) -> (r: bool)
        ensures
            r == !old(self).seen().contains(pid),
            final(self).seen() == old(self).seen().insert(pid),
            final(self).injected() == old(self).injected(),
            final(self).target() == old(self).target(),
            final(self).module() == old(self).module(),
    {
        self.seen.insert(pid)
    }

    /// Checks the modules of process `pid`, the first of which has the path
    /// `exe_path` and the rest of which are `modules`: whether our module is
    /// loaded, and whether a second copy is loaded from the game's directory
    /// (the scan stops there).
    pub fn check_modules(&mut self, pid: u32, exe_path: &[u16], modules: &Vec<ModuleEntry>) -> (r:
        ModuleCheck)
        ensures
            ({
                let kinds = module_kinds(old(self).module(), dir_of(wide_lower(exe_path@)), modules@);
                &&& r.loaded == scan_found_ours(kinds)
                &&& r.newly_loaded == (r.loaded && !old(self).injected().contains(pid))
                &&& match r.second_copy {
                    Some(k) => k == scan_end(kinds) && k < modules.len(),
                    None => scan_end(kinds) == modules.len(),
                }
                &&& final(self).injected() == if r.loaded {
                    old(self).injected().insert(pid)
                } else {
                    old(self).injected()
                }
            }),
            final(self).seen() == old(self).seen(),
            final(self).target() == old(self).target(),
            final(self).module() == old(self).module(),
    {
        let exe_dir = dir_chars(&wide_lower_chars(exe_path));
        let ghost kinds = module_kinds(self.module.path@, exe_dir@, modules@);
        let mut loaded = false;
        let mut stop: Option<usize> = None;
        let mut i: usize = 0;
        while i < modules.len()
            invariant_except_break
                stop is None,
            invariant
                i <= modules.len(),
                kinds == module_kinds(self.module.path@, exe_dir@, modules@),
                kinds.len() == modules.len(),
                forall|k: int| 0 <= k < i ==> kinds[k] != ModuleKind::SecondCopy,
                loaded == exists|k: int| 0 <= k < i && kinds[k] == ModuleKind::Ours,
            ensures
                i <= modules.len(),
                forall|k: int| 0 <= k < i ==> kinds[k] != ModuleKind::SecondCopy,
                loaded == exists|k: int| 0 <= k < i && kinds[k] == ModuleKind::Ours,
                stop is None ==> i == modules.len(),
                stop matches Some(k) ==> k == i && i < modules.len() && first_index(
                    kinds,
                    ModuleKind::SecondCopy,
                ) == Some(i as int),
            decreases modules.len() - i,
        {
            let kind = self.module.classify(&exe_dir, &modules[i]);
            assert(kind == kinds[i as int]);
            if kind == ModuleKind::SecondCopy {
                proof {
                    crate::text::lemma_first_index_is(kinds, ModuleKind::SecondCopy, i as int);
                }
                stop = Some(i);
                break;
            }
            if kind == ModuleKind::Ours {
                loaded = true;
            }
            i += 1;
        }
        proof {
            if stop is None {
                crate::text::lemma_first_index(kinds, ModuleKind::SecondCopy);
            }
        }
        let newly_loaded = if loaded {
            self.injected.insert(pid)
        } else {
            false
        };
        ModuleCheck { loaded, newly_loaded, second_copy: stop }
    }
}

/// What the inject-mode loader does about one process of the target.
#[derive(PartialEq, Eq, Structural, Clone, Copy, Debug)]
pub enum TargetAction {
    /// 3DMigoto was injected into it earlier: nothing to do, it counts as found.
    AlreadyInjected,
    /// Inject 3DMigoto; `announce` when the process is reported for the first time.
    Inject { announce: bool },
}

/// What to do about process `pid` of the target, given the processes injected
/// and those reported so far.
pub open spec fn target_action(injected: Set<u32>, reported: Set<u32>, pid: u32) -> TargetAction {
    if injected.contains(pid) {
        TargetAction::AlreadyInjected
    } else {
        TargetAction::Inject { announce: !reported.contains(pid) }
    }
}

/// The processes reported after deciding about `pid`.
pub open spec fn reported_after(injected: Set<u32>, reported: Set<u32>, pid: u32) -> Set<u32> {
    if injected.contains(pid) {
        reported
    } else {
        reported.insert(pid)
    }
}

/// A process is reported as found at most once, and once 3DMigoto was
/// injected into it, it is never injected again.
pub proof fn injects_once(injected: Set<u32>, reported: Set<u32>, pid: u32)
    ensures
        target_action(injected.insert(pid), reported, pid) == TargetAction::AlreadyInjected,
        target_action(injected, reported_after(injected, reported, pid), pid) != (TargetAction::Inject {
            announce: true,
        }),
{
}

/// "3DMigoto loaded" is reported at most once per process: once a check
/// found our module in `pid`, no later check of `pid` reports it as new.
pub proof fn loaded_reported_once(
    injected: Set<u32>,
    pid: u32,
    first: Seq<ModuleKind>,
    later: Seq<ModuleKind>,
)
    requires
        scan_found_ours(first),
    ensures
        ({
            let after = injected.insert(pid);
            let later_is_new = scan_found_ours(later) && !after.contains(pid);
            !later_is_new
        }),
{
}

/// What the inject-mode loader keeps while it watches for the target.
pub struct InjectWatch {
    target: TargetName,
    injected: HashSet<u32>,
    reported: HashSet<u32>,
}

impl InjectWatch {
    /// The target executable being watched for.
    pub closed spec fn target(&self) -> Seq<char> {
        self.target.path@
    }

    /// Processes into which 3DMigoto was injected.
    pub closed spec fn injected(&self) -> Set<u32> {
        self.injected@
    }

    /// Processes already reported as found.
    pub closed spec fn reported(&self) -> Set<u32> {
        self.reported@
    }

    /// Starts watching for `target`.
    pub fn new(target: &str) -> (r: Self)
        ensures
            r.target() == target@,
            r.injected() == Set::<u32>::empty(),
            r.reported() == Set::<u32>::empty(),
    {
        InjectWatch { target: TargetName::new(target), injected: HashSet::new(), reported: HashSet::new() }
    }

    /// Whether a process with this executable file name is the target.
    pub fn is_target(&self, exe_file: &[u16]) -> (r: bool)
        ensures
            r == (wide_lower(exe_file@) == lower_seq(file_name_of(self.target()))),
    {
        self.target.matches(exe_file)
    }

    /// Decides what to do about process `pid` of the target.
    pub fn on_target(&mut self, pid: u32) -> (r: TargetAction)
        ensures
            r == target_action(old(self).injected(), old(self).reported(), pid),
            final(self).reported() == reported_after(old(self).injected(), old(self).reported(), pid),
            final(self).injected() == old(self).injected(),
            final(self).target() == old(self).target(),
    {
        if self.injected.contains(&pid) {
            TargetAction::AlreadyInjected
        } else {
            let announce = self.reported.insert(pid);
            TargetAction::Inject { announce }
        }
    }

    /// Records that 3DMigoto was injected into process `pid`.
    pub fn on_injected(&mut self, pid: u32)
        ensures
            final(self).injected() == old(self).injected().insert(pid),
            final(self).reported() == old(self).reported(),
            final(self).target() == old(self).target(),
    {
        self.injected.insert(pid);
    }
}

/// Where the loader is in its wait for the target.
#[derive(PartialEq, Eq, Structural, Clone, Copy, Debug)]
pub enum WaitPhase {
    /// Scanning for the target at intervals.
    Polling,
    /// Counting down the seconds left before shutting down.
    Countdown(i32),
    /// Done: the loader exits.
    Finished,
}

/// The countdown from `k` seconds: nothing left when `k` is below 1.
pub open spec fn countdown_from(k: i32) -> WaitPhase {
    if k >= 1 {
        WaitPhase::Countdown(k)
    } else {
        WaitPhase::Finished
    }
}

/// The first phase: poll when asked to wait for the target or to run for
/// ever (`delay` -1), else count down at once.
pub open spec fn first_phase(wait: bool, delay: i32) -> WaitPhase {
    if wait || delay == -1 {
        WaitPhase::Polling
    } else {
        countdown_from(delay)
    }
}

/// The phase after a scan while polling: the countdown starts once the target
/// was found, unless the loader runs for ever.
pub open spec fn after_poll_phase(delay: i32, found: bool) -> WaitPhase {
    if found && delay != -1 {
        countdown_from(delay)
    } else {
        WaitPhase::Polling
    }
}

/// The phase after one second of the countdown.
pub open spec fn after_tick_phase(phase: WaitPhase) -> WaitPhase {
    match phase {
        WaitPhase::Countdown(k) => if k > 1 {
            WaitPhase::Countdown((k - 1) as i32)
        } else {
            WaitPhase::Finished
        },
        _ => phase,
    }
}

/// The wait for the target: how long to keep going after it was found.
pub struct TargetWait {
    /// Seconds to keep running once the target was found; -1 for ever.
    pub delay: i32,
    /// Where the wait is.
    pub phase: WaitPhase,
}

impl TargetWait {
    /// Starts the wait.
    pub fn new(wait: bool, delay: i32) -> (r: Self)
        ensures
            r.delay == delay,
            r.phase == first_phase(wait, delay),
    {
        let phase = if wait || delay == -1 {
            WaitPhase::Polling
        } else if delay >= 1 {
            WaitPhase::Countdown(delay)
        } else {
            WaitPhase::Finished
        };
        TargetWait { delay, phase }
    }

    /// Takes in the result of a scan made while polling.
    pub fn after_poll(&mut self, found: bool)
        ensures
            final(self).delay == old(self).delay,
            final(self).phase == if old(self).phase == WaitPhase::Polling {
                after_poll_phase(old(self).delay, found)
            } else {
                old(self).phase
            },
    {
        if self.phase == WaitPhase::Polling && found && self.delay != -1 {
            self.phase = if self.delay >= 1 {
                WaitPhase::Countdown(self.delay)
            } else {
                WaitPhase::Finished
            };
        }
    }

    /// One second of the countdown has passed.
    pub fn after_tick(&mut self)
        ensures
            final(self).delay == old(self).delay,
            final(self).phase == after_tick_phase(old(self).phase),
    {
        if let WaitPhase::Countdown(k) = self.phase {
            self.phase = if k > 1 {
                WaitPhase::Countdown(k - 1)
            } else {
                WaitPhase::Finished
            };
        }
    }
}

/// Asked to wait for the target, the loader starts by polling whatever the
/// delay; told to run for ever (`delay` -1) it polls whether asked to wait or
/// not; otherwise it never polls and goes straight to the countdown.
pub proof fn waiting_starts_by_polling(wait: bool, delay: i32)
    ensures
        first_phase(true, delay) == WaitPhase::Polling,
        first_phase(wait, -1i32) == WaitPhase::Polling,
        !wait && delay != -1 ==> first_phase(wait, delay) != WaitPhase::Polling,
{
}

/// While polling, a scan that does not find the target keeps the loader
/// polling; one that finds it starts the countdown of `delay` seconds
/// (finishing at once when `delay` is 0 or less), unless the loader runs for ever.
pub proof fn found_target_starts_countdown(delay: i32)
    ensures
        after_poll_phase(delay, false) == WaitPhase::Polling,
        delay >= 1 ==> after_poll_phase(delay, true) == WaitPhase::Countdown(delay),
        delay != -1 && delay < 1 ==> after_poll_phase(delay, true) == WaitPhase::Finished,
{
}

/// `n` seconds of countdown.
pub open spec fn ticks(phase: WaitPhase, n: nat) -> WaitPhase
    decreases n,
{
    if n == 0 {
        phase
    } else {
        ticks(after_tick_phase(phase), (n - 1) as nat)
    }
}

/// A loader told to run for ever (`delay` -1) never stops polling, whatever
/// the scans find.
pub proof fn runs_for_ever(found: bool)
    ensures
        after_poll_phase(-1i32, found) == WaitPhase::Polling,
{
}

/// The countdown from `delay` seconds shows `delay`, `delay - 1`, ..., 1 and
/// then finishes.
pub proof fn countdown_counts_down(delay: i32, n: nat)
    requires
        delay >= 1,
        n <= delay,
    ensures
        ticks(countdown_from(delay), n) == countdown_from((delay - n) as i32),
    decreases n,
{
    if n > 0 {
        countdown_counts_down(delay, (n - 1) as nat);
        lemma_ticks_last(countdown_from(delay), (n - 1) as nat);
    }
}

/// One more tick after `n` ticks.
proof fn lemma_ticks_last(phase: WaitPhase, n: nat)
    ensures
        ticks(phase, n + 1) == after_tick_phase(ticks(phase, n)),
    decreases n,
{
    if n > 0 {
        lemma_ticks_last(after_tick_phase(phase), (n - 1) as nat);
        assert(ticks(phase, n) == ticks(after_tick_phase(phase), (n - 1) as nat));
        assert(ticks(phase, n + 1) == ticks(after_tick_phase(phase), n));
    }
}

/// How the wait for the remote `LoadLibraryW` thread ended.
#[derive(PartialEq, Eq, Structural, Clone, Copy, Debug)]
pub enum ThreadWait {
    /// The thread finished.
    Signaled,
    /// It did not finish in time.
    TimedOut,
    /// The wait itself failed.
    Failed,
}

/// The outcome of an injection attempt once the remote thread was started.
#[derive(PartialEq, Eq, Structural, Clone, Copy, Debug)]
pub enum InjectionOutcome {
    /// `LoadLibraryW` returned a module handle.
    Loaded,
    /// `LoadLibraryW` returned NULL, or its result could not be read.
    LoadLibraryFailed,
    /// The remote thread did not finish in time.
    TimedOut,
    /// Waiting for the remote thread failed.
    WaitFailed,
}

/// Judges an injection from how the wait for the remote thread ended and the
/// thread's exit code (`None` when it could not be read).
pub fn injection_outcome(wait: ThreadWait, exit_code: Option<u32>) -> (r: InjectionOutcome)
    ensures
        r == match wait {
            ThreadWait::Signaled => match exit_code {
                Some(c) => if c != 0 {
                    InjectionOutcome::Loaded
                } else {
                    InjectionOutcome::LoadLibraryFailed
                },
                None => InjectionOutcome::LoadLibraryFailed,
            },
            ThreadWait::TimedOut => InjectionOutcome::TimedOut,
            ThreadWait::Failed => InjectionOutcome::WaitFailed,
        },
{
    match wait {
        ThreadWait::Signaled => match exit_code {
            Some(c) => if c != 0 {
                InjectionOutcome::Loaded
            } else {
                InjectionOutcome::LoadLibraryFailed
            },
            None => InjectionOutcome::LoadLibraryFailed,
        },
        ThreadWait::TimedOut => InjectionOutcome::TimedOut,
        ThreadWait::Failed => InjectionOutcome::WaitFailed,
    }
}

/// The outcome of asking the shell to restart the loader as administrator.
#[derive(PartialEq, Eq, Structural, Clone, Copy, Debug)]
pub enum ElevationOutcome {
    /// The elevated copy started: this one exits.
    Restarted,
    /// The user or the system refused.
    AccessDenied,
    /// Another error, with the shell's code.
    Failed,
}

/// Reads the code `ShellExecuteW` returned: above 32 is success, 5 is
/// "access denied", anything else another error.
pub fn elevation_outcome(code: isize) -> (r: ElevationOutcome)
    ensures
        r == if code > 32 {
            ElevationOutcome::Restarted
        } else if code == 5 {
            ElevationOutcome::AccessDenied
        } else {
            ElevationOutcome::Failed
        },
{
    if code > 32 {
        ElevationOutcome::Restarted
    } else if code == 5 {
        ElevationOutcome::AccessDenied
    } else {
        ElevationOutcome::Failed
    }
}

/// Whether the loader must restart itself elevated: only when the token
/// could be queried and says the process is not elevated.
pub fn needs_elevation(token_elevated: Option<bool>) -> (r: bool)
    ensures
        r == (token_elevated == Some(false)),
{
    match token_elevated {
        Some(e) => !e,
        None => false,
    }
}

} // verus!
