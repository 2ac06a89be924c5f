//! The scheduler panel's decisions: arming the node pick, opening the task
//! list, and building the request that sends a robot to a node.
use vstd::prelude::*;
use crate::keyed::{find_key, lookup};
use crate::roster::{offers_tasks, robot_has_available_tasks, FleetRobot};
use crate::workspace::{JsonPoint, WorkspaceJson};

verus! {

/// What the scheduler asks the server to run: `task` on `robot`, towards
/// the node `node_id` (named `node_name`) at `latlon`.
pub struct SchedulerRunRequest {
    pub robot: String,
    pub task: String,
    pub node_id: String,
    pub node_name: String,
    pub latlon: JsonPoint,
}

/// The status line while a request is on its way: `Sending {task} to
/// {robot}...`, with ` schedule` after the task for a schedule.
pub open spec fn sending_text(task: Seq<char>, robot: Seq<char>, schedule: bool) -> Seq<char> {
    "Sending "@ + task + (if schedule {
        " schedule to "@
    } else {
        " to "@
    }) + robot + "..."@
}

/// Builds the request for `task` on `robot` towards node `node_id`, with
/// the status to show; or the status that says what is missing: the node
/// (it must be stored), then the robot, then the task (a schedule when
/// `schedule`).
pub fn scheduler_run_request(ws: &WorkspaceJson, robot: &str, task: &str, node_id: &str, schedule: bool) -> (r:
    Result<(SchedulerRunRequest, String), String>)
    requires
        ws.wf(),
    ensures
        match lookup(ws.nodes@, node_id@) {
            None => r matches Err(m) && m@ == "Select a scheduler node first."@,
            Some(n) => if robot@.len() == 0 {
                r matches Err(m) && m@ == "Select a robot first."@
            } else if task@.len() == 0 {
                r matches Err(m) && m@ == (if schedule {
                    "Select a schedule first."@
                } else {
                    "Select a task first."@
                })
            } else {
                r matches Ok((q, m)) && q.robot@ == robot@ && q.task@ == task@ && q.node_id@ == n.id@
                    && q.node_name@ == n.name@ && q.latlon == n.latlon && m@ == sending_text(task@, robot@, schedule)
            },
        },
{
    let k = match find_key(&ws.nodes, node_id) {
        None => {
            return Err(String::from_str("Select a scheduler node first."));
        },
        Some(k) => k,
    };
    proof {
        crate::keyed::lemma_lookup_at(ws.nodes@, k as int);
    }
    if robot.unicode_len() == 0 {
        return Err(String::from_str("Select a robot first."));
    }
    if task.unicode_len() == 0 {
        return Err(
            if schedule {
                String::from_str("Select a schedule first.")
            } else {
                String::from_str("Select a task first.")
            },
        );
    }
    let node = &ws.nodes[k].1;
    let mut status = String::from_str("Sending ");
    status.append(task);
    status.append(if schedule { " schedule to " } else { " to " });
    status.append(robot);
    status.append("...");
    let request = SchedulerRunRequest {
        robot: String::from_str(robot),
        task: String::from_str(task),
        node_id: node.id.clone(),
        node_name: node.name.clone(),
        latlon: node.latlon,
    };
    Ok((request, status))
}

/// Pressing "pick node": arming clears the chosen node; pressing again
/// cancels. Returns whether the pick is armed, whether the chosen node is
/// cleared, and the status.
pub fn scheduler_pick_toggled(picking: bool) -> (r: (bool, bool, String))
    ensures
        r.0 == !picking,
        r.1 == !picking,
        r.2@ == (if picking {
            "Scheduler node pick cancelled."@
        } else {
            "Scheduler node pick armed. Click one node."@
        }),
{
    if picking {
        (false, false, String::from_str("Scheduler node pick cancelled."))
    } else {
        (true, true, String::from_str("Scheduler node pick armed. Click one node."))
    }
}

/// What pressing "tasks" does to the task panel.
pub enum TasksPanel {
    /// The robot offers no tasks: the panel closes with this status.
    NoTasks(String),
    /// The panel closes.
    Closed,
    /// The panel opens and the robot's task list is fetched.
    Opened,
}

/// Toggles the task panel for `robot`, which opens only for a robot that
/// offers tasks.
pub fn tasks_panel_toggled(robots: &[FleetRobot], robot: &str, open: bool) -> (r: TasksPanel)
    ensures
        !offers_tasks(robots@, robot@) ==> (r matches TasksPanel::NoTasks(m) && m@
            == "No task topic detected for the selected robot."@),
        offers_tasks(robots@, robot@) && open ==> r is Closed,
        offers_tasks(robots@, robot@) && !open ==> r is Opened,
{
    if !robot_has_available_tasks(robots, robot) {
        return TasksPanel::NoTasks(String::from_str("No task topic detected for the selected robot."));
    }
    if open {
        TasksPanel::Closed
    } else {
        TasksPanel::Opened
    }
}

} // verus!
