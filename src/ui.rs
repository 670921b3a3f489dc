//! The user-interface declaration that a headed burrow advertises.
use vstd::prelude::*;

verus! {

broadcast use vstd::string::group_string_axioms;

/// One page of a burrow's interface.
#[derive(Debug)]
pub struct UiRoute {
    /// Path of the route, such as `/dialogue`.
    pub path: String,
    /// Name shown to the user.
    pub display_name: String,
    /// How a client should render the route.
    pub ui_hint: String,
    /// HTML markup of the route.
    pub markup: String,
}

/// A burrow's interface: a format version, a description and routes keyed by path.
#[derive(Debug)]
pub struct UiDeclaration {
    pub version: String,
    pub description: String,
    pub routes: Vec<UiRoute>,
}

/// The paths of a list of routes.
pub open spec fn route_paths(rs: Seq<UiRoute>) -> Seq<Seq<char>> {
    rs.map_values(|r: UiRoute| r.path@)
}

fn route(path: &str, display_name: &str, ui_hint: &str, markup: &str) -> (r: UiRoute)
    ensures
        r.path@ == path@,
        r.display_name@ == display_name@,
        r.ui_hint@ == ui_hint@,
        r.markup@ == markup@,
{
    UiRoute {
        path: path.to_owned(),
        display_name: display_name.to_owned(),
        ui_hint: ui_hint.to_owned(),
        markup: markup.to_owned(),
    }
}

impl UiDeclaration {
    /// The interface of a headed burrow: a dialogue page, a status page and a control
    /// panel.
    pub fn default_headed() -> (r: UiDeclaration)
        ensures
            r.version@ == "1.0"@,
            r.description@ == "Default headed UI"@,
            route_paths(r.routes@) == seq!["/dialogue"@, "/status"@, "/control"@],
            r.routes@[0].display_name@ == "Community Chat"@,
            r.routes@[0].ui_hint@ == "dialogue"@,
            r.routes@[1].display_name@ == "Burrow Status"@,
            r.routes@[1].ui_hint@ == "dashboard"@,
            r.routes@[2].display_name@ == "Control Panel"@,
            r.routes@[2].ui_hint@ == "control"@,
    {
        let mut routes: Vec<UiRoute> = Vec::new();
        routes.push(
            route(
                "/dialogue",
                "Community Chat",
                "dialogue",
                r#"<div class='rabbit-dialogue'>
  <h2 class='text-xl font-bold mb-2'>Community Dialogue</h2>
  <div id='messages' class='border p-2 h-48 overflow-y-scroll mb-2'></div>
  <input type='text' placeholder='Say something…' id='composer' class='border p-2 w-full' />
</div>"#,
            ),
        );
        routes.push(
            route(
                "/status",
                "Burrow Status",
                "dashboard",
                r#"<div class='rabbit-status'>
  <h2 class='text-xl font-bold mb-2'>Status</h2>
  <p>Connected warrens: <span id='count'></span></p>
</div>"#,
            ),
        );
        routes.push(
            route(
                "/control",
                "Control Panel",
                "control",
                r#"<div class='rabbit-control'>
  <h2 class='text-xl font-bold mb-2'>Control Panel</h2>
  <p>This panel provides basic controls for discovery and trust.</p>
  <ul class='list-disc ml-4 mb-2'>
    <li><a href='/list/warren' class='text-blue-600 underline'>List peers</a> – shows all known local burrows</li>
    <li><a href='/list/anchors' class='text-blue-600 underline'>List anchors</a> – shows federation anchors</li>
    <li><a href='/list/trusted' class='text-blue-600 underline'>List trusted</a> – shows burrows trusted via TOFU</li>
  </ul>
  <form id='connect-form' class='flex mb-2'>
    <input type='text' placeholder='Burrow ID or address' class='border p-2 flex-grow' />
    <button type='submit' class='bg-blue-500 text-white px-4 py-2 ml-2'>Connect</button>
  </form>
  <form id='disconnect-form' class='flex'>
    <input type='text' placeholder='Burrow ID' class='border p-2 flex-grow' />
    <button type='submit' class='bg-red-500 text-white px-4 py-2 ml-2'>Disconnect</button>
  </form>
</div>"#,
            ),
        );
        let r = UiDeclaration {
            version: "1.0".to_owned(),
            description: "Default headed UI".to_owned(),
            routes,
        };
        assert(route_paths(r.routes@) =~= seq!["/dialogue"@, "/status"@, "/control"@]);
        r
    }

    /// The interface of a headless burrow: no routes.
    pub fn default_headless() -> (r: UiDeclaration)
        ensures
            r.version@ == "1.0"@,
            r.description@ == "Headless burrow (no UI)"@,
            r.routes@.len() == 0,
    {
        UiDeclaration {
            version: "1.0".to_owned(),
            description: "Headless burrow (no UI)".to_owned(),
            routes: Vec::new(),
        }
    }

    /// The markup of the route at `path`, if there is one.
    pub fn markup_for(&self, path: &str) -> (r: Option<&String>)
        ensures
            match r {
                Some(m) => exists|i: int|
                    0 <= i < self.routes@.len() && (#[trigger] self.routes@[i]).path@ == path@
                        && self.routes@[i].markup == *m,
                None => forall|i: int|
                    0 <= i < self.routes@.len() ==> (#[trigger] self.routes@[i]).path@ != path@,
            },
    {
        let k = path.to_owned();
        let mut i: usize = 0;
        while i < self.routes.len()
            invariant
                i <= self.routes@.len(),
                k@ == path@,
                forall|j: int| 0 <= j < i ==> (#[trigger] self.routes@[j]).path@ != path@,
            decreases self.routes@.len() - i,
        {
            if self.routes[i].path == k {
                return Some(&self.routes[i].markup);
            }
            i = i + 1;
        }
        None
    }
}

} // verus!
