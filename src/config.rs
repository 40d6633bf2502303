use vstd::prelude::*;

verus! {

/// One entry of the route table: requests whose Host header equals `route`
/// are forwarded to the base address `forward`.
pub struct Route {
    pub route: String,
    pub forward: String,
}

/// The proxy's configuration: its bind address, the two warning switches and
/// the ordered route table.
pub struct Config {
    pub addr: String,
    pub disable_domain_not_configured_warns: bool,
    pub disable_failed_to_reach_warns: bool,
    pub routes: Vec<Route>,
}

/// Entry `i` of `routes` is the first whose match name is `name`.
pub open spec fn is_first_match(routes: Seq<Route>, name: Seq<char>, i: int) -> bool {
    &&& 0 <= i < routes.len()
    &&& routes[i].route@ == name
    &&& forall|j: int| 0 <= j < i ==> routes[j].route@ != name
}

/// No entry of `routes` has the match name `name`.
pub open spec fn no_match(routes: Seq<Route>, name: Seq<char>) -> bool {
    forall|i: int| 0 <= i < routes.len() ==> routes[i].route@ != name
}

/// No two entries of `routes` share a match name.
pub open spec fn unique_names(routes: Seq<Route>) -> bool {
    forall|i: int, j: int|
        0 <= i < routes.len() && 0 <= j < routes.len() && i != j
            ==> #[trigger] routes[i].route@ != #[trigger] routes[j].route@
}

impl Config {
    /// The first route, in table order, whose match name equals `route_name`
    /// exactly; `None` when there is none.
    pub fn find_route(&self, route_name: &str) -> (r: Option<&Route>)
        ensures
            match r {
                Some(route) => exists|i: int|
                    is_first_match(self.routes@, route_name@, i) && *route == self.routes@[i],
                None => no_match(self.routes@, route_name@),
            },
    {
        let name = String::from_str(route_name);
        let mut i: usize = 0;
        while i < self.routes.len()
            invariant
                i <= self.routes@.len(),
                name@ == route_name@,
                forall|j: int| 0 <= j < i ==> self.routes@[j].route@ != route_name@,
            decreases self.routes@.len() - i,
        {
            if self.routes[i].route == name {
                return Some(&self.routes[i]);
            }
            i = i + 1;
        }
        None
    }
}

} // verus!
