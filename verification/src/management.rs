//! The management view's decisions, taken in the same step as the editor's
//! (see `editor::editor_step`): switching views, the scheduler and task
//! panels, the scheduler's node pick, choosing a robot and sending it a
//! task.
use vstd::prelude::*;
use crate::editor::{AppMode, EditMode, EditorAction, EditorState, EditorView, RightPanel, SelectionView};
use crate::keyed::lookup;
use crate::roster::{offers_tasks, robot_has_available_tasks};
use crate::scheduler::{scheduler_pick_toggled, scheduler_run_request, sending_text, tasks_panel_toggled, TasksPanel};
use crate::workspace::{texts_of, JsonPoint, Selection};

verus! {

/// While the scheduler's node pick is armed and a node is selected, that
/// node becomes the scheduler's target, the pick ends and the status says
/// so.
pub open spec fn pick_settled(m: EditorView) -> EditorView {
    match m.selection {
        SelectionView::Node(id) => if m.scheduler_picking {
            EditorView {
                scheduler_target: id,
                scheduler_picking: false,
                status: "Selected node "@ + id + " for the scheduler."@,
                ..m
            }
        } else {
            m
        },
        _ => m,
    }
}

/// The task panel does not stay open for a robot that offers no tasks.
pub open spec fn tasks_settled(m: EditorView) -> EditorView {
    if m.management_panel == Some(RightPanel::Tasks) && !offers_tasks(m.robots, m.selected_robot) {
        EditorView { management_panel: None, ..m }
    } else {
        m
    }
}

/// What follows every step (see `pick_settled`, `tasks_settled`).
pub open spec fn settled(m: EditorView) -> EditorView {
    tasks_settled(pick_settled(m))
}

pub(crate) fn settle(state: &mut EditorState)
    ensures
        final(state)@ == settled(old(state)@),
        final(state).workspace == old(state).workspace,
        final(state).mode == old(state).mode,
        final(state).zone_draft == old(state).zone_draft,
{
    settle_pick(state);
    if state.management_panel == Some(RightPanel::Tasks) && !robot_has_available_tasks(
        state.robots.as_slice(),
        state.selected_robot.as_str(),
    ) {
        state.management_panel = None;
    }
}

fn settle_pick(state: &mut EditorState)
    ensures
        final(state)@ == pick_settled(old(state)@),
        final(state).workspace == old(state).workspace,
        final(state).mode == old(state).mode,
        final(state).zone_draft == old(state).zone_draft,
{
    if !state.scheduler_picking {
        return ;
    }
    let id = match &state.selection {
        Selection::Node(id) => id.clone(),
        _ => {
            return ;
        },
    };
    let mut text = String::from_str("Selected node ");
    text.append(id.as_str());
    text.append(" for the scheduler.");
    state.scheduler_target = id;
    state.scheduler_picking = false;
    state.status = text;
}

/// Switching to the editor reports it; switching to the management view
/// also leaves every editing mode: inspecting, nothing picked, drawn or
/// dragged.
pub open spec fn app_mode_switched(s: EditorView, mode: AppMode, t: EditorView) -> bool {
    match mode {
        AppMode::Editor => t == (EditorView { app_mode: AppMode::Editor, status: "Editor mode."@, ..s }),
        AppMode::Management => t == (EditorView {
            app_mode: AppMode::Management,
            status: "Management mode."@,
            mode: EditMode::Inspect,
            edge_source: Seq::empty(),
            draft: Seq::empty(),
            pending_parent: None,
            drag: None,
            ..s
        }),
    }
}

pub(crate) fn on_switch_app_mode(state: &mut EditorState, mode: AppMode)
    requires
        old(state).wf(),
    ensures
        final(state).wf(),
        app_mode_switched(old(state)@, mode, final(state)@),
{
    match mode {
        AppMode::Editor => {
            state.app_mode = AppMode::Editor;
            state.status = String::from_str("Editor mode.");
        },
        AppMode::Management => {
            state.app_mode = AppMode::Management;
            state.status = String::from_str("Management mode.");
            state.mode = EditMode::Inspect;
            state.edge_source_id = String::new();
            state.zone_draft = Vec::new();
            state.pending_parent = None;
            state.drag = None;
            assert(state.zone_draft@ =~= Seq::<JsonPoint>::empty());
            assert(state.edge_source_id@ =~= Seq::<char>::empty());
        },
    }
}

/// The scheduler panel opens, or closes when it is open.
pub open spec fn scheduler_panel_toggled(s: EditorView, t: EditorView) -> bool {
    t == (EditorView {
        management_panel: if s.management_panel == Some(RightPanel::Scheduler) {
            None
        } else {
            Some(RightPanel::Scheduler)
        },
        ..s
    })
}

/// The task panel: refused (and closed) for a robot that offers no tasks;
/// otherwise it closes when open, or opens and the robot's tasks are
/// fetched.
pub open spec fn tasks_toggled(s: EditorView, t: EditorView, a: EditorAction) -> bool {
    if !offers_tasks(s.robots, s.selected_robot) {
        &&& t == (EditorView {
            management_panel: None,
            status: "No task topic detected for the selected robot."@,
            ..s
        })
        &&& a is Idle
    } else if s.management_panel == Some(RightPanel::Tasks) {
        t == (EditorView { management_panel: None, ..s }) && a is Idle
    } else {
        &&& t == (EditorView { management_panel: Some(RightPanel::Tasks), ..s })
        &&& a matches EditorAction::FetchTasks(r) && r@ == s.selected_robot
    }
}

pub(crate) fn on_toggle_tasks_panel(state: &mut EditorState) -> (a: EditorAction)
    requires
        old(state).wf(),
    ensures
        final(state).wf(),
        tasks_toggled(old(state)@, final(state)@, a),
{
    let open = state.management_panel == Some(RightPanel::Tasks);
    match tasks_panel_toggled(state.robots.as_slice(), state.selected_robot.as_str(), open) {
        TasksPanel::NoTasks(m) => {
            state.management_panel = None;
            state.status = m;
            EditorAction::Idle
        },
        TasksPanel::Closed => {
            state.management_panel = None;
            EditorAction::Idle
        },
        TasksPanel::Opened => {
            state.management_panel = Some(RightPanel::Tasks);
            EditorAction::FetchTasks(state.selected_robot.clone())
        },
    }
}

/// Arming the node pick forgets the target; pressing again cancels.
pub open spec fn pick_toggled(s: EditorView, t: EditorView) -> bool {
    t == (EditorView {
        scheduler_picking: !s.scheduler_picking,
        scheduler_target: if s.scheduler_picking {
            s.scheduler_target
        } else {
            Seq::empty()
        },
        status: if s.scheduler_picking {
            "Scheduler node pick cancelled."@
        } else {
            "Scheduler node pick armed. Click one node."@
        },
        ..s
    })
}

pub(crate) fn on_toggle_pick(state: &mut EditorState)
    requires
        old(state).wf(),
    ensures
        final(state).wf(),
        pick_toggled(old(state)@, final(state)@),
{
    let (armed, cleared, text) = scheduler_pick_toggled(state.scheduler_picking);
    state.scheduler_picking = armed;
    if cleared {
        state.scheduler_target = String::new();
        assert(state.scheduler_target@ =~= Seq::<char>::empty());
    }
    state.status = text;
}

/// The status when robot `name` is chosen, by whether it can be shown on
/// the map.
pub open spec fn robot_chosen_text(name: Seq<char>, mappable: bool) -> Seq<char> {
    if mappable {
        "Selected robot "@ + name + "."@
    } else {
        "Selected robot "@ + name + ". It has no mappable odom or gnss position yet."@
    }
}

/// Choosing robot `name` (at `point`, when it can be shown) forgets the
/// chosen tasks and target; its tasks are fetched and the map looks at it.
pub open spec fn robot_chosen(
    s: EditorView,
    name: Seq<char>,
    point: Option<JsonPoint>,
    t: EditorView,
    a: EditorAction,
) -> bool {
    &&& t == (EditorView {
        selected_robot: name,
        schedule_task: Seq::empty(),
        scheduler_task: Seq::empty(),
        scheduler_target: Seq::empty(),
        status: robot_chosen_text(name, point is Some),
        ..s
    })
    &&& a matches EditorAction::RobotChosen { robot, focus } && robot@ == name && focus == point
}

pub(crate) fn on_robot_row_click(state: &mut EditorState, name: String, point: Option<JsonPoint>) -> (a:
    EditorAction)
    requires
        old(state).wf(),
    ensures
        final(state).wf(),
        robot_chosen(old(state)@, name@, point, final(state)@, a),
{
    let mut text = String::from_str("Selected robot ");
    text.append(name.as_str());
    if point.is_some() {
        text.append(".");
    } else {
        text.append(". It has no mappable odom or gnss position yet.");
    }
    state.selected_robot = name.clone();
    state.schedule_task = String::new();
    state.scheduler_task = String::new();
    state.scheduler_target = String::new();
    state.status = text;
    assert(state.schedule_task@ =~= Seq::<char>::empty());
    assert(state.scheduler_task@ =~= Seq::<char>::empty());
    assert(state.scheduler_target@ =~= Seq::<char>::empty());
    EditorAction::RobotChosen { robot: name, focus: point }
}

pub open spec fn fetched_view(r: Result<(Vec<String>, String), String>) -> Result<
    (Seq<Seq<char>>, Seq<char>),
    Seq<char>,
> {
    match r {
        Ok((tasks, status)) => Ok((texts_of(tasks@), status@)),
        Err(e) => Err(e@),
    }
}

/// The server's answer to a task-list request: the offered tasks (none on
/// an error), no task chosen, and the server's status or the error.
pub open spec fn tasks_fetched(
    s: EditorView,
    r: Result<(Seq<Seq<char>>, Seq<char>), Seq<char>>,
    t: EditorView,
) -> bool {
    match r {
        Ok((tasks, status)) => t == (EditorView {
            task_options: tasks,
            scheduler_task: Seq::empty(),
            status: status,
            ..s
        }),
        Err(e) => t == (EditorView {
            task_options: Seq::empty(),
            scheduler_task: Seq::empty(),
            status: e,
            ..s
        }),
    }
}

pub(crate) fn on_tasks_fetched(state: &mut EditorState, r: Result<(Vec<String>, String), String>)
    requires
        old(state).wf(),
    ensures
        final(state).wf(),
        tasks_fetched(old(state)@, fetched_view(r), final(state)@),
{
    match r {
        Ok((tasks, status)) => {
            state.task_options = tasks;
            state.status = status;
        },
        Err(e) => {
            state.task_options = Vec::new();
            state.status = e;
            assert(texts_of(state.task_options@) =~= Seq::<Seq<char>>::empty());
        },
    }
    state.scheduler_task = String::new();
    assert(state.scheduler_task@ =~= Seq::<char>::empty());
}

/// Sending the chosen task (or, for a schedule, the chosen order) to the
/// chosen robot towards the target node: refused with what is missing
/// (see `scheduler_run_request`), or reported and handed to the server.
pub open spec fn run_requested(s: EditorView, schedule: bool, t: EditorView, a: EditorAction) -> bool {
    let robot = s.selected_robot;
    let task = if schedule {
        s.schedule_task
    } else {
        s.scheduler_task
    };
    match lookup(s.workspace.nodes@, s.scheduler_target) {
        None => crate::editor::only_status(s, t, "Select a scheduler node first."@) && a is Idle,
        Some(n) => if robot.len() == 0 {
            crate::editor::only_status(s, t, "Select a robot first."@) && a is Idle
        } else if task.len() == 0 {
            crate::editor::only_status(
                s,
                t,
                if schedule {
                    "Select a schedule first."@
                } else {
                    "Select a task first."@
                },
            ) && a is Idle
        } else {
            &&& crate::editor::only_status(s, t, sending_text(task, robot, schedule))
            &&& a matches EditorAction::SendRun(q) && q.robot@ == robot && q.task@ == task && q.node_id@
                == n.id@ && q.node_name@ == n.name@ && q.latlon == n.latlon
        },
    }
}

pub(crate) fn on_run_task(state: &mut EditorState, schedule: bool) -> (a: EditorAction)
    requires
        old(state).wf(),
    ensures
        final(state).wf(),
        run_requested(old(state)@, schedule, final(state)@, a),
{
    let task = if schedule {
        state.schedule_task.as_str()
    } else {
        state.scheduler_task.as_str()
    };
    let made = scheduler_run_request(
        &state.workspace,
        state.selected_robot.as_str(),
        task,
        state.scheduler_target.as_str(),
        schedule,
    );
    match made {
        Ok((request, text)) => {
            state.status = text;
            EditorAction::SendRun(request)
        },
        Err(text) => {
            state.status = text;
            EditorAction::Idle
        },
    }
}

} // verus!
