use crate::dispatch::{Controller, RouteParams};
use crate::text::{chars_of, same_text, stands_at};
use vstd::prelude::*;
use vstd::string::{StrSliceExecFns, StringExecFns};

verus! {

/// The position after the last `stop` in `t`: where the last part of `t` starts.
pub open spec fn last_part_start(t: Seq<char>, stop: char) -> int
    decreases t.len(),
{
    if t.len() == 0 {
        0
    } else if t.last() == stop {
        t.len() as int
    } else {
        last_part_start(t.drop_last(), stop)
    }
}

/// The part of `t` after its last `stop`, or all of `t`.
pub open spec fn last_part(t: Seq<char>, stop: char) -> Seq<char> {
    t.skip(last_part_start(t, stop))
}

/// The environment that a route names: the last part of a route under `/environments/`.
pub open spec fn environment_of(route: Seq<char>) -> Option<Seq<char>> {
    if "/environments/"@.is_prefix_of(route) {
        Some(last_part(route, '/'))
    } else {
        None
    }
}

proof fn lemma_last_part_start_bound(t: Seq<char>, stop: char)
    ensures
        0 <= last_part_start(t, stop) <= t.len(),
    decreases t.len(),
{
    if t.len() > 0 && t.last() != stop {
        lemma_last_part_start_bound(t.drop_last(), stop);
    }
}

fn find_last_part(chars: &Vec<char>, stop: char) -> (start: usize)
    ensures
        start == last_part_start(chars@, stop),
        start <= chars.len(),
{
    let mut k: usize = chars.len();
    assert(chars@.take(k as int) =~= chars@);
    while k > 0 && chars[k - 1] != stop
        invariant
            k <= chars.len(),
            last_part_start(chars@, stop) == last_part_start(chars@.take(k as int), stop),
        decreases k,
    {
        assert(chars@.take(k as int).drop_last() =~= chars@.take(k - 1));
        k = k - 1;
    }
    proof {
        lemma_last_part_start_bound(chars@, stop);
        if k > 0 {
            assert(chars@.take(k as int).last() == stop);
        }
    }
    k
}

/// Shows one environment: active on the routes under `/environments/`, with the
/// environment that the route names.
#[derive(Hash)]
pub struct EnvironmentDetailController {
    env_id: String,
}

impl EnvironmentDetailController {
    /// The environment that the controller shows.
    pub closed spec fn environment(&self) -> Seq<char> {
        self.env_id@
    }

    /// A controller that shows no environment yet.
    pub fn new() -> (controller: EnvironmentDetailController)
        ensures
            controller.environment() == Seq::<char>::empty(),
    {
        EnvironmentDetailController { env_id: String::new() }
    }

    /// The environment that the controller shows.
    pub fn env_id(&self) -> (env_id: &String)
        ensures
            env_id@ == self.environment(),
    {
        &self.env_id
    }
}

impl Default for EnvironmentDetailController {
    fn default() -> (controller: EnvironmentDetailController)
        ensures
            controller.environment() == Seq::<char>::empty(),
    {
        EnvironmentDetailController::new()
    }
}

impl Controller for EnvironmentDetailController {
    fn params(&mut self, params: &RouteParams) -> (taken: Option<()>)
        ensures
            taken is Some <==> environment_of(params.data.name@) is Some,
            final(self).environment() == match environment_of(params.data.name@) {
                Some(environment) => environment,
                None => old(self).environment(),
            },
    {
        let name = params.data.name.as_str();
        let chars = chars_of(name);
        assert(chars@.skip(0) =~= chars@);
        if stands_at(&chars, 0, &chars_of("/environments/")) {
            let start: usize = find_last_part(&chars, '/');
            self.env_id = name.substring_char(start, chars.len()).to_owned();
            assert(self.env_id@ =~= last_part(name@, '/'));
            Some(())
        } else {
            None
        }
    }

    fn start(&self) -> (commands: Vec<String>)
        ensures
            commands@.len() == 1,
            commands@[0]@ == "load env "@ + self.environment(),
    {
        let mut command = String::from_str("load env ");
        command.append(self.env_id.as_str());
        let mut commands: Vec<String> = Vec::new();
        commands.push(command);
        commands
    }

    fn stop(&self) -> (commands: Vec<String>)
        ensures
            commands@.len() == 0,
    {
        Vec::new()
    }
}

/// Shows the home screen: active on the route `/home`.
#[derive(Hash)]
pub struct HomeController;

impl Controller for HomeController {
    fn params(&mut self, params: &RouteParams) -> (taken: Option<()>)
        ensures
            taken is Some <==> params.data.name@ == "/home"@,
    {
        if same_text(&chars_of(params.data.name.as_str()), &chars_of("/home")) {
            Some(())
        } else {
            None
        }
    }

    fn start(&self) -> (commands: Vec<String>)
        ensures
            commands@.len() == 1,
            commands@[0]@ == "load the home screen"@,
    {
        let mut commands: Vec<String> = Vec::new();
        commands.push(String::from_str("load the home screen"));
        commands
    }
}

} // verus!
