//! The tutorial: a fixed run of tasks, each ticked off by the action it
//! teaches.
use vstd::prelude::*;

verus! {

/// How many hints the tutorial shows, one per task and one at the end.
pub const TUTORIAL_HINT_COUNT: usize = 7;

/// The tutorial's tasks, in the order they are set.
#[derive(Clone, Copy, PartialEq, Eq, Structural)]
pub enum TasksInTutorial {
    MoveCamera,
    UseZoom,
    OpenBuildMenu,
    ProlongTheLine,
    BuildNewLine,
    BuyTrain,
    EndOfTutorial,
}

/// The place of a task in the run.
pub open spec fn task_index(t: TasksInTutorial) -> int {
    match t {
        TasksInTutorial::MoveCamera => 0,
        TasksInTutorial::UseZoom => 1,
        TasksInTutorial::OpenBuildMenu => 2,
        TasksInTutorial::ProlongTheLine => 3,
        TasksInTutorial::BuildNewLine => 4,
        TasksInTutorial::BuyTrain => 5,
        TasksInTutorial::EndOfTutorial => 6,
    }
}

/// The hint shown while `t` is the task: the one with the task's place.
pub fn hint_index(t: TasksInTutorial) -> (i: usize)
    ensures
        i == task_index(t),
        i < TUTORIAL_HINT_COUNT,
{
    match t {
        TasksInTutorial::MoveCamera => 0,
        TasksInTutorial::UseZoom => 1,
        TasksInTutorial::OpenBuildMenu => 2,
        TasksInTutorial::ProlongTheLine => 3,
        TasksInTutorial::BuildNewLine => 4,
        TasksInTutorial::BuyTrain => 5,
        TasksInTutorial::EndOfTutorial => 6,
    }
}

/// What happened during one frame, as far as the tutorial cares.
#[derive(Clone, Copy)]
pub struct TutorialInput {
    /// Whether the hint text is on screen.
    pub hint_shown: bool,
    /// One of the camera keys (W, A, S, D) was just pressed.
    pub camera_key_pressed: bool,
    pub wheel_scrolled: bool,
    pub build_menu_opened: bool,
    pub line_prolonged: bool,
    pub line_built: bool,
    pub train_bought: bool,
    /// The key that closes the tutorial (Q) was just pressed.
    pub close_pressed: bool,
    /// The key that leaves to the main menu (E) was just pressed.
    pub exit_pressed: bool,
}

/// What the tutorial asks the game to do in response.
#[derive(Clone, Copy, PartialEq, Eq)]
pub struct TutorialAction {
    pub redraw_hint: bool,
    pub close_tutorial: bool,
    pub leave_to_menu: bool,
}

/// How far the player has got.
pub struct Progress {
    pub current_task: TasksInTutorial,
}

/// Whether `input` completes task `t`.
pub open spec fn completes(t: TasksInTutorial, input: TutorialInput) -> bool {
    match t {
        TasksInTutorial::MoveCamera => input.hint_shown && input.camera_key_pressed,
        TasksInTutorial::UseZoom => input.wheel_scrolled,
        TasksInTutorial::OpenBuildMenu => input.build_menu_opened,
        TasksInTutorial::ProlongTheLine => input.line_prolonged,
        TasksInTutorial::BuildNewLine => input.line_built,
        TasksInTutorial::BuyTrain => input.train_bought,
        TasksInTutorial::EndOfTutorial => false,
    }
}

/// The task after `t`.
pub open spec fn following(t: TasksInTutorial) -> TasksInTutorial {
    match t {
        TasksInTutorial::MoveCamera => TasksInTutorial::UseZoom,
        TasksInTutorial::UseZoom => TasksInTutorial::OpenBuildMenu,
        TasksInTutorial::OpenBuildMenu => TasksInTutorial::ProlongTheLine,
        TasksInTutorial::ProlongTheLine => TasksInTutorial::BuildNewLine,
        TasksInTutorial::BuildNewLine => TasksInTutorial::BuyTrain,
        _ => TasksInTutorial::EndOfTutorial,
    }
}

impl Progress {
    /// A tutorial at its first task.
    pub fn new() -> (p: Self)
        ensures
            p.current_task == TasksInTutorial::MoveCamera,
    {
        Progress { current_task: TasksInTutorial::MoveCamera }
    }

    /// One frame of the tutorial: the current task is ticked off when the
    /// input does what it asks, and the hint is redrawn; at the end, the
    /// close key closes the tutorial and the exit key leaves to the menu.
    pub fn track_progress(&mut self, input: TutorialInput) -> (action: TutorialAction)
        ensures
            completes(old(self).current_task, input) ==> final(self).current_task == following(
                old(self).current_task,
            ),
            !completes(old(self).current_task, input) ==> final(self).current_task == old(
                self,
            ).current_task,
            action.redraw_hint == completes(old(self).current_task, input),
            action.close_tutorial == (old(self).current_task == TasksInTutorial::EndOfTutorial
                && input.close_pressed),
            action.leave_to_menu == (old(self).current_task == TasksInTutorial::EndOfTutorial
                && input.exit_pressed),
    {
        let mut action = TutorialAction { redraw_hint: false, close_tutorial: false, leave_to_menu: false };
        let next = match self.current_task {
            TasksInTutorial::MoveCamera => if input.hint_shown && input.camera_key_pressed {
                Some(TasksInTutorial::UseZoom)
            } else {
                None
            },
            TasksInTutorial::UseZoom => if input.wheel_scrolled {
                Some(TasksInTutorial::OpenBuildMenu)
            } else {
                None
            },
            TasksInTutorial::OpenBuildMenu => if input.build_menu_opened {
                Some(TasksInTutorial::ProlongTheLine)
            } else {
                None
            },
            TasksInTutorial::ProlongTheLine => if input.line_prolonged {
                Some(TasksInTutorial::BuildNewLine)
            } else {
                None
            },
            TasksInTutorial::BuildNewLine => if input.line_built {
                Some(TasksInTutorial::BuyTrain)
            } else {
                None
            },
            TasksInTutorial::BuyTrain => if input.train_bought {
                Some(TasksInTutorial::EndOfTutorial)
            } else {
                None
            },
            TasksInTutorial::EndOfTutorial => {
                action.close_tutorial = input.close_pressed;
                action.leave_to_menu = input.exit_pressed;
                None
            },
        };
        if let Some(t) = next {
            self.current_task = t;
            action.redraw_hint = true;
        }
        action
    }
}

/// The tutorial only moves forward, one task at a time: after any frame
/// the task is the same or the next one.
pub proof fn law_tutorial_moves_forward(t: TasksInTutorial, input: TutorialInput)
    ensures
        completes(t, input) ==> task_index(following(t)) == task_index(t) + 1,
        task_index(t) <= task_index(if completes(t, input) {
            following(t)
        } else {
            t
        }) <= task_index(t) + 1,
{
}

/// Each task is ticked off by its own action and by nothing else: moving
/// the camera while the hint shows, zooming, opening the build menu,
/// prolonging a line, building a new line and buying a train, in that
/// order, each leading to the next; at the end of the tutorial nothing
/// moves it on. What else happened in the frame does not matter.
pub proof fn law_each_task_waits_for_its_action(input: TutorialInput, other: TutorialInput)
    ensures
        completes(TasksInTutorial::MoveCamera, input) <==> (input.hint_shown && input.camera_key_pressed),
        completes(TasksInTutorial::UseZoom, input) <==> input.wheel_scrolled,
        completes(TasksInTutorial::OpenBuildMenu, input) <==> input.build_menu_opened,
        completes(TasksInTutorial::ProlongTheLine, input) <==> input.line_prolonged,
        completes(TasksInTutorial::BuildNewLine, input) <==> input.line_built,
        completes(TasksInTutorial::BuyTrain, input) <==> input.train_bought,
        !completes(TasksInTutorial::EndOfTutorial, input),
        following(TasksInTutorial::MoveCamera) == TasksInTutorial::UseZoom,
        following(TasksInTutorial::UseZoom) == TasksInTutorial::OpenBuildMenu,
        following(TasksInTutorial::OpenBuildMenu) == TasksInTutorial::ProlongTheLine,
        following(TasksInTutorial::ProlongTheLine) == TasksInTutorial::BuildNewLine,
        following(TasksInTutorial::BuildNewLine) == TasksInTutorial::BuyTrain,
        following(TasksInTutorial::BuyTrain) == TasksInTutorial::EndOfTutorial,
        other.line_prolonged == input.line_prolonged ==> completes(TasksInTutorial::ProlongTheLine, other)
            == completes(TasksInTutorial::ProlongTheLine, input),
        other.line_built == input.line_built ==> completes(TasksInTutorial::BuildNewLine, other)
            == completes(TasksInTutorial::BuildNewLine, input),
        other.train_bought == input.train_bought ==> completes(TasksInTutorial::BuyTrain, other)
            == completes(TasksInTutorial::BuyTrain, input),
{
}

} // verus!
