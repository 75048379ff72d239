use rs_frame::dispatch::{transition, App, Controller, RouteParams, Transition};
use std::cell::RefCell;
use std::hash::{Hash, Hasher};
use std::rc::Rc;

struct EnvironmentDetailController {
    env_id: String,
    log: Rc<RefCell<Vec<String>>>,
}

impl Hash for EnvironmentDetailController {
    fn hash<H: Hasher>(&self, state: &mut H) {
        self.env_id.hash(state);
    }
}

impl Controller for EnvironmentDetailController {
    fn params(&mut self, params: &RouteParams) -> Option<()> {
        if params.data.name.starts_with("/environments/") {
            let env_id = params.data.name.rsplit("/").next().unwrap();
            self.env_id = env_id.to_string();
            Some(())
        } else {
            None
        }
    }

    fn start(&self) -> Vec<String> {
        self.log.borrow_mut().push(format!("start env {}", self.env_id));
        vec![format!("load env {}", self.env_id)]
    }

    fn stop(&self) -> Vec<String> {
        self.log.borrow_mut().push("stop env".to_string());
        vec![]
    }
}

struct HomeController {
    log: Rc<RefCell<Vec<String>>>,
}

impl Hash for HomeController {
    fn hash<H: Hasher>(&self, _state: &mut H) {}
}

impl Controller for HomeController {
    fn params(&mut self, params: &RouteParams) -> Option<()> {
        if params.data.name == "/home" {
            Some(())
        } else {
            None
        }
    }

    fn start(&self) -> Vec<String> {
        self.log.borrow_mut().push("start home".to_string());
        vec![format!("load the home screen")]
    }
}

fn app_with_log() -> (App, Rc<RefCell<Vec<String>>>) {
    let log = Rc::new(RefCell::new(Vec::new()));
    let mut app = App::new();
    app.add_controller(EnvironmentDetailController { env_id: String::new(), log: log.clone() });
    app.add_controller(HomeController { log: log.clone() });
    (app, log)
}

#[test]
fn transition_covers_every_case() {
    assert_eq!(transition(None, None), Transition::Unchanged);
    assert_eq!(transition(None, Some(7)), Transition::Start);
    assert_eq!(transition(Some(7), None), Transition::Stop);
    assert_eq!(transition(Some(7), Some(7)), Transition::Unchanged);
    assert_eq!(transition(Some(7), Some(8)), Transition::Restart);
}

#[test]
fn app_without_controllers_makes_no_transition() {
    let mut app = App::new();
    assert_eq!(app.new_route("/home".to_string()), vec![]);
}

#[test]
fn first_route_starts_the_controller_that_takes_it() {
    let (mut app, log) = app_with_log();
    let made = app.new_route("/environments/exam-copy".to_string());
    assert_eq!(made, vec![Transition::Start, Transition::Unchanged]);
    assert_eq!(*log.borrow(), vec!["start env exam-copy".to_string()]);
}

#[test]
fn other_parameters_restart_the_controller() {
    let (mut app, log) = app_with_log();
    app.new_route("/environments/exam-copy".to_string());
    let made = app.new_route("/environments/deadline-extension".to_string());
    assert_eq!(made, vec![Transition::Restart, Transition::Unchanged]);
    assert_eq!(
        *log.borrow(),
        vec![
            "start env exam-copy".to_string(),
            "stop env".to_string(),
            "start env deadline-extension".to_string(),
        ]
    );
}

#[test]
fn leaving_a_route_stops_its_controller_and_starts_the_next() {
    let (mut app, log) = app_with_log();
    app.new_route("/environments/exam-copy".to_string());
    let made = app.new_route("/home".to_string());
    assert_eq!(made, vec![Transition::Stop, Transition::Start]);
    assert_eq!(
        *log.borrow(),
        vec!["start env exam-copy".to_string(), "stop env".to_string(), "start home".to_string()]
    );
}

#[test]
fn same_route_twice_changes_nothing() {
    let (mut app, log) = app_with_log();
    app.new_route("/home".to_string());
    let made = app.new_route("/home".to_string());
    assert_eq!(made, vec![Transition::Unchanged, Transition::Unchanged]);
    assert_eq!(*log.borrow(), vec!["start home".to_string()]);
}

#[test]
fn same_parameters_keep_the_controller_running() {
    let (mut app, log) = app_with_log();
    app.new_route("/environments/exam-copy".to_string());
    let made = app.new_route("/environments/exam-copy".to_string());
    assert_eq!(made, vec![Transition::Unchanged, Transition::Unchanged]);
    assert_eq!(*log.borrow(), vec!["start env exam-copy".to_string()]);
}

struct Silent;

impl Hash for Silent {
    fn hash<H: Hasher>(&self, _state: &mut H) {}
}

impl Controller for Silent {
    fn params(&mut self, _params: &RouteParams) -> Option<()> {
        Some(())
    }

    fn start(&self) -> Vec<String> {
        vec![]
    }
}

#[test]
fn stop_gives_no_commands_unless_a_controller_says_so() {
    assert_eq!(Silent.stop(), Vec::<String>::new());
}
