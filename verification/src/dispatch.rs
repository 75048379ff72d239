use std::collections::hash_map::DefaultHasher;
use std::hash::{Hash, Hasher};
use vstd::prelude::*;
use vstd::std_specs::hash::DefaultHasherAdditionalSpecFns;
use vstd::string::StringExecFns;

verus! {

/// What a route carries.
pub struct RouteData {
    pub name: String,
}

/// A route as it is handed to the controllers.
pub struct RouteParams {
    pub template: String,
    pub data: RouteData,
}

/// A consumer of routes. `params` says whether the route is the controller's own
/// and may take the controller's parameters from it; `start` and `stop` give the
/// commands to run when the controller becomes active or stops being so.
pub trait Controller {
    fn params(&mut self, params: &RouteParams) -> Option<()>;

    fn start(&self) -> Vec<String>;

    fn stop(&self) -> (commands: Vec<String>)
        default_ensures
            commands@ == Seq::<String>::empty(),
    {
        Vec::new()
    }
}

/// What a change of route means for one controller.
#[derive(Debug, PartialEq, Eq, Clone, Copy, Structural)]
pub enum Transition {
    /// Inactive before and after, or active with the same parameters.
    Unchanged,
    /// Newly active.
    Start,
    /// No longer active.
    Stop,
    /// Active before and after, with other parameters.
    Restart,
}

/// The transition from the fingerprint of the parameters that a controller had
/// (none while inactive) to the one it has now.
pub open spec fn transition_of(before: Option<u64>, after: Option<u64>) -> Transition {
    match (before, after) {
        (None, None) => Transition::Unchanged,
        (None, Some(_)) => Transition::Start,
        (Some(_), None) => Transition::Stop,
        (Some(a), Some(b)) => if a == b {
            Transition::Unchanged
        } else {
            Transition::Restart
        },
    }
}

/// Decides what a controller is told when its parameters go from `before` to `after`.
pub fn transition(before: Option<u64>, after: Option<u64>) -> (t: Transition)
    ensures
        t == transition_of(before, after),
{
    match (before, after) {
        (None, None) => Transition::Unchanged,
        (None, Some(_)) => Transition::Start,
        (Some(_), None) => Transition::Stop,
        (Some(a), Some(b)) => if a == b {
            Transition::Unchanged
        } else {
            Transition::Restart
        },
    }
}

/// What the controllers are handed for a route. The application knows no
/// templates: every route goes out under `/whatever`.
pub fn route_params(route: String) -> (params: RouteParams)
    ensures
        params.template@ == "/whatever"@,
        params.data.name@ == route@,
{
    RouteParams { template: String::from_str("/whatever"), data: RouteData { name: route } }
}

trait Routed {
    fn route(&mut self, params: &RouteParams) -> Option<u64>;

    fn apply(&self, t: Transition);
}

struct Hashed<C> {
    inner: C,
}

/// Feeds `value` to the hasher with `std::hash::Hash::hash`. Nothing is claimed of
/// the state that the hasher is left in.
#[verifier::external_body]
fn feed<C: Hash>(value: &C, state: &mut DefaultHasher) {
    value.hash(state)
}

/// `digest` is what the default hasher gives for something written to it.
pub open spec fn is_digest(digest: u64) -> bool {
    exists|written: Seq<Seq<u8>>| digest == #[trigger] DefaultHasher::spec_finish(written)
}

impl<C: Controller + Hash> Routed for Hashed<C> {
    /// Asks the controller whether the route is its own. Where it is, gives the
    /// fingerprint of its parameters: the digest that a default hasher makes of
    /// what the controller feeds it.
    fn route(&mut self, params: &RouteParams) -> (fingerprint: Option<u64>)
        ensures
            fingerprint matches Some(digest) ==> is_digest(digest),
    {
        match self.inner.params(params) {
            Some(_) => {
                let mut state = DefaultHasher::new();
                feed(&self.inner, &mut state);
                Some(state.finish())
            },
            None => None,
        }
    }

    fn apply(&self, t: Transition) {
        match t {
            Transition::Unchanged => {},
            Transition::Start => {
                let _ = self.inner.start();
            },
            Transition::Stop => {
                let _ = self.inner.stop();
            },
            Transition::Restart => {
                let _ = self.inner.stop();
                let _ = self.inner.start();
            },
        }
    }
}

struct ControllerState {
    controller: Box<dyn Routed>,
    prev_params: Option<u64>,
}

/// The controllers of an application, each with the fingerprint of the parameters
/// it is active with.
pub struct App {
    controllers: Vec<ControllerState>,
}

impl View for App {
    type V = Seq<Option<u64>>;

    closed spec fn view(&self) -> Seq<Option<u64>> {
        self.controllers@.map_values(|c: ControllerState| c.prev_params)
    }
}

impl App {
    /// An application without controllers.
    pub fn new() -> (app: App)
        ensures
            app@ == Seq::<Option<u64>>::empty(),
    {
        let app = App { controllers: Vec::new() };
        assert(app@ =~= Seq::<Option<u64>>::empty());
        app
    }

    /// Adds a controller, inactive, after those that are there.
    pub fn add_controller<C: 'static + Controller + Hash>(&mut self, controller: C)
        ensures
            final(self)@ == old(self)@.push(None),
    {
        let boxed: Box<dyn Routed> = Box::new(Hashed { inner: controller });
        self.push_state(ControllerState { controller: boxed, prev_params: None });
    }

    fn push_state(&mut self, state: ControllerState)
        requires
            state.prev_params is None,
        ensures
            final(self)@ == old(self)@.push(None),
    {
        self.controllers.push(state);
        assert(self@ =~= old(self)@.push(None));
    }

    /// Hands the route to every controller, in the order in which they were added,
    /// as `route_params` makes it, and tells each what the change means for it.
    /// Gives the transitions made.
    pub fn new_route(&mut self, route: String) -> (made: Vec<Transition>)
        ensures
            final(self)@.len() == old(self)@.len(),
            made@.len() == old(self)@.len(),
            forall|i: int|
                0 <= i < made@.len() ==> made@[i] == transition_of(
                    #[trigger] old(self)@[i],
                    final(self)@[i],
                ),
    {
        let route_params = route_params(route);
        let mut made: Vec<Transition> = Vec::new();
        let n: usize = self.controllers.len();
        let mut i: usize = 0;
        while i < n
            invariant
                n == self.controllers.len(),
                self@.len() == old(self)@.len(),
                n == old(self)@.len(),
                i <= n,
                made@.len() == i,
                forall|k: int|
                    0 <= k < i ==> made@[k] == transition_of(#[trigger] old(self)@[k], self@[k]),
                forall|k: int| i <= k < n ==> self@[k] == old(self)@[k],
            decreases n - i,
        {
            let ghost prior = self@;
            let before = self.controllers[i].prev_params;
            let after = self.controllers[i].controller.route(&route_params);
            let t = transition(before, after);
            self.controllers[i].controller.apply(t);
            self.controllers[i].prev_params = after;
            made.push(t);
            i = i + 1;
        }
        made
    }
}

} // verus!
