//! The order in which the program starts, and what a failure on the way means.
use vstd::prelude::*;

verus! {

/// A step of the start.
#[derive(Clone, Copy, Debug, PartialEq, Eq, Structural)]
pub enum StartStep {
    /// Enter a COM apartment, through which UI Automation delivers events.
    EnterApartment,
    CreateWindow,
    CreatePainter,
    /// Take on the blacklist, and hook the foreground if it matters.
    WatchForeground,
    /// Take on the hotkeys, and hook the keyboard.
    ListenToKeyboard,
    CreateTrayIcon,
    CheckAdmin,
    /// Prepare running at startup; after this there is a switcher.
    InitStartup,
    RegisterTrayIcon,
    /// Hand the switcher to its window.
    AttachToWindow,
    RunEventLoop,
}

/// The steps of the start, in order.
pub open spec fn start_steps(trayicon: bool) -> Seq<StartStep> {
    let hooked = seq![
        StartStep::EnterApartment,
        StartStep::CreateWindow,
        StartStep::CreatePainter,
        StartStep::WatchForeground,
        StartStep::ListenToKeyboard,
    ];
    let last = seq![StartStep::AttachToWindow, StartStep::RunEventLoop];
    if trayicon {
        hooked + seq![
            StartStep::CreateTrayIcon,
            StartStep::CheckAdmin,
            StartStep::InitStartup,
            StartStep::RegisterTrayIcon,
        ] + last
    } else {
        hooked + seq![StartStep::CheckAdmin, StartStep::InitStartup] + last
    }
}

/// The program goes on if the step fails: without COM only events are lost, and the
/// tray icon is tried again later.
pub open spec fn is_dispensable(step: StartStep) -> bool {
    step == StartStep::EnterApartment || step == StartStep::RegisterTrayIcon
}

/// How far the start has come.
#[derive(Debug)]
pub struct Launch {
    steps: Vec<StartStep>,
    done: usize,
    failed: bool,
}

/// What a `Launch` says.
pub struct LaunchModel {
    pub steps: Seq<StartStep>,
    /// How many steps are behind.
    pub done: nat,
    /// Whether the step after those failed, so that the start is over.
    pub failed: bool,
}

impl View for Launch {
    type V = LaunchModel;

    closed spec fn view(&self) -> LaunchModel {
        LaunchModel { steps: self.steps@, done: self.done as nat, failed: self.failed }
    }
}

impl LaunchModel {
    /// The step to perform next, if any is left.
    pub open spec fn pending(self) -> Option<StartStep> {
        if !self.failed && self.done < self.steps.len() {
            Some(self.steps[self.done as int])
        } else {
            None
        }
    }
}

/// The start before its first step.
pub open spec fn launched(trayicon: bool) -> LaunchModel {
    LaunchModel { steps: start_steps(trayicon), done: 0, failed: false }
}

/// The start after its pending step went well or not.
pub open spec fn reported(launch: LaunchModel, ok: bool) -> LaunchModel {
    match launch.pending() {
        Some(step) => if ok || is_dispensable(step) {
            LaunchModel { done: launch.done + 1, ..launch }
        } else {
            LaunchModel { failed: true, ..launch }
        },
        None => launch,
    }
}

impl Launch {
    /// Before the first step. `trayicon` says whether there is to be a tray icon.
    pub fn new(trayicon: bool) -> (launch: Self)
        ensures
            launch@ == launched(trayicon),
    {
        let mut steps: Vec<StartStep> = Vec::new();
        steps.push(StartStep::EnterApartment);
        steps.push(StartStep::CreateWindow);
        steps.push(StartStep::CreatePainter);
        steps.push(StartStep::WatchForeground);
        steps.push(StartStep::ListenToKeyboard);
        if trayicon {
            steps.push(StartStep::CreateTrayIcon);
        }
        steps.push(StartStep::CheckAdmin);
        steps.push(StartStep::InitStartup);
        if trayicon {
            steps.push(StartStep::RegisterTrayIcon);
        }
        steps.push(StartStep::AttachToWindow);
        steps.push(StartStep::RunEventLoop);
        assert(steps@ =~= start_steps(trayicon));
        Launch { steps, done: 0, failed: false }
    }

    /// The step to perform next, if any is left.
    pub fn pending(&self) -> (step: Option<StartStep>)
        ensures
            step == self@.pending(),
    {
        if !self.failed && self.done < self.steps.len() {
            Some(self.steps[self.done])
        } else {
            None
        }
    }

    /// Whether a step failed that the program cannot do without.
    pub fn failed(&self) -> (failed: bool)
        ensures
            failed == self@.failed,
    {
        self.failed
    }

    /// Takes note of how the pending step went.
    pub fn report(&mut self, ok: bool)
        ensures
            final(self)@ == reported(old(self)@, ok),
    {
        if !self.failed && self.done < self.steps.len() {
            let step = self.steps[self.done];
            if ok || step == StartStep::EnterApartment || step == StartStep::RegisterTrayIcon {
                self.done = self.done + 1;
            } else {
                self.failed = true;
            }
        }
    }
}

/// The start after a sequence of reports.
pub open spec fn after_reports(launch: LaunchModel, oks: Seq<bool>) -> LaunchModel
    decreases oks.len(),
{
    if oks.len() == 0 {
        launch
    } else {
        reported(after_reports(launch, oks.drop_last()), oks.last())
    }
}

/// The step went well, or the program can do without it.
pub open spec fn passes(trayicon: bool, oks: Seq<bool>, k: int) -> bool {
    oks[k] || is_dispensable(start_steps(trayicon)[k])
}

/// As long as no step fails that the program cannot do without, the steps come one
/// after the other.
pub proof fn steps_come_in_order(trayicon: bool, oks: Seq<bool>)
    requires
        oks.len() <= start_steps(trayicon).len(),
        forall|k: int| 0 <= k < oks.len() ==> #[trigger] passes(trayicon, oks, k),
    ensures
        ({
            let launch = after_reports(launched(trayicon), oks);
            &&& !launch.failed
            &&& launch.done == oks.len()
            &&& launch.steps == start_steps(trayicon)
            &&& launch.pending() == (if oks.len() < start_steps(trayicon).len() {
                Some(start_steps(trayicon)[oks.len() as int])
            } else {
                None
            })
        }),
    decreases oks.len(),
{
    if oks.len() > 0 {
        let rest = oks.drop_last();
        assert forall|k: int| 0 <= k < rest.len() implies #[trigger] passes(trayicon, rest, k) by {
            assert(passes(trayicon, oks, k));
        }
        steps_come_in_order(trayicon, rest);
        assert(passes(trayicon, oks, oks.len() - 1));
    }
}

/// The first failure of a step that the program cannot do without ends the start:
/// whatever is reported after it, it stays the failure, and no step comes any more.
pub proof fn first_failure_ends_the_start(trayicon: bool, oks: Seq<bool>, first: int)
    requires
        0 <= first < oks.len(),
        first < start_steps(trayicon).len(),
        !passes(trayicon, oks, first),
        forall|k: int| 0 <= k < first ==> #[trigger] passes(trayicon, oks, k),
    ensures
        ({
            let launch = after_reports(launched(trayicon), oks);
            &&& launch.failed
            &&& launch.done == first
            &&& launch.pending() is None
        }),
    decreases oks.len(),
{
    let rest = oks.drop_last();
    if first < rest.len() {
        assert(!passes(trayicon, rest, first));
        assert forall|k: int| 0 <= k < first implies #[trigger] passes(trayicon, rest, k) by {
            assert(passes(trayicon, oks, k));
        }
        first_failure_ends_the_start(trayicon, rest, first);
    } else {
        assert forall|k: int| 0 <= k < rest.len() implies #[trigger] passes(trayicon, rest, k) by {
            assert(passes(trayicon, oks, k));
        }
        steps_come_in_order(trayicon, rest);
    }
}

/// Without the apartment or the tray icon's registration the program goes on; any other
/// step that fails ends the start there.
pub proof fn only_two_steps_can_be_done_without(launch: LaunchModel, step: StartStep)
    requires
        launch.pending() == Some(step),
    ensures
        step is EnterApartment || step is RegisterTrayIcon ==> reported(launch, false) == reported(
            launch,
            true,
        ),
        !(step is EnterApartment) && !(step is RegisterTrayIcon) ==> reported(
            launch,
            false,
        ).failed && reported(launch, false).pending() is None && reported(launch, false).done
            == launch.done,
        !reported(launch, true).failed,
        reported(launch, true).done == launch.done + 1,
        reported(launch, true).steps == launch.steps,
{
}

/// Without a tray icon the steps are the same, in the same order, but for the two that
/// are about it.
pub proof fn tray_icon_adds_its_own_steps()
    ensures
        start_steps(false) == start_steps(true).remove(8).remove(5),
        start_steps(true)[5] == StartStep::CreateTrayIcon,
        start_steps(true)[8] == StartStep::RegisterTrayIcon,
        start_steps(true).len() == 11,
{
    assert(start_steps(false) =~= start_steps(true).remove(8).remove(5));
}

} // verus!
