//! `(definspector)` — inspector panels: where a panel's data comes from, how it renders and
//! refreshes, and where it docks.
use vstd::prelude::*;

use crate::registry::{
    find_key, index_of_key, lemma_first_where_spec, upsert, upserted, Named,
};
use crate::text::{chars_of, owned, push_str, trim, trim_chars};

verus! {

/// A JSON value carried through unread.
#[verifier::external_type_specification]
#[verifier::external_body]
pub struct ExJsonValue(serde_json::Value);

/// Where a panel's data comes from.
#[derive(Debug)]
pub enum PanelSource {
    /// Poll an HTTP endpoint.
    Http { url: String },
    /// Call an MCP tool, with optional static arguments.
    Mcp { tool: String, args: Option<serde_json::Value> },
    /// Tail a storage log.
    Storage { name: String },
    /// Mirror a state cell.
    State { name: String },
    /// Run a query on refresh.
    Query { name: String },
    /// Show a fixed JSON value.
    Static { value: serde_json::Value },
}

/// How a panel renders.
#[derive(Debug, Clone, Copy, PartialEq, Eq, Structural)]
pub enum PanelView {
    /// A grid of rows and columns.
    Table,
    /// A collapsible tree.
    Tree,
    /// A time-ordered stream.
    Timeline,
    /// Pretty-printed JSON.
    Json,
    /// Raw text.
    Text,
    /// A single-number dial.
    Metric,
    /// A log tail.
    Tail,
}

impl Default for PanelView {
    fn default() -> (r: Self)
        ensures
            r == PanelView::Json,
    {
        PanelView::Json
    }
}

/// When a panel refreshes.
#[derive(Debug, Clone, Copy, PartialEq, Eq, Structural)]
pub enum RefreshStrategy {
    /// On request only.
    Manual,
    /// Every `refresh_seconds`.
    Interval,
    /// On each change of a log source.
    Tail,
    /// Once, when opened.
    Once,
}

impl Default for RefreshStrategy {
    fn default() -> (r: Self)
        ensures
            r == RefreshStrategy::Manual,
    {
        RefreshStrategy::Manual
    }
}

/// Where a panel docks.
#[derive(Debug, Clone, Copy, PartialEq, Eq, Structural)]
pub enum PanelPosition {
    Left,
    Right,
    Bottom,
    /// A free-floating window.
    Floating,
}

impl Default for PanelPosition {
    fn default() -> (r: Self)
        ensures
            r == PanelPosition::Bottom,
    {
        PanelPosition::Bottom
    }
}

/// An inspector panel.
#[derive(Debug)]
pub struct InspectorSpec {
    pub name: String,
    pub title: String,
    pub icon: Option<String>,
    pub source: PanelSource,
    pub view: PanelView,
    pub refresh: RefreshStrategy,
    /// Seconds between refreshes with `Interval`; clamped to one second .. one hour.
    pub refresh_seconds: u32,
    /// Columns of a `Table` view.
    pub columns: Vec<String>,
    pub position: PanelPosition,
    /// Shown by default.
    pub visible: bool,
    /// Minimum height in pixels; `0` leaves it to the layout.
    pub min_height: u32,
    pub description: Option<String>,
}

impl Named for InspectorSpec {
    open spec fn key(&self) -> Seq<char> {
        self.name@
    }

    fn name_ref(&self) -> (r: &str) {
        self.name.as_str()
    }
}

/// The refresh interval used when none is given.
pub fn default_refresh_seconds() -> (r: u32)
    ensures
        r == 5,
{
    5
}

/// Panels are visible unless said otherwise.
pub fn default_visible() -> (r: bool)
    ensures
        r,
{
    true
}

/// The key field a source needs and lacks, by the keyword that names it.
pub open spec fn missing_source_field(source: PanelSource) -> Option<Seq<char>> {
    match source {
        PanelSource::Http { url } => if url@.len() == 0 { Some(":http source needs :url"@) } else { None },
        PanelSource::Mcp { tool, .. } => if tool@.len() == 0 { Some(":mcp source needs :tool"@) } else { None },
        PanelSource::Storage { name } => if name@.len() == 0 { Some(":storage source needs :name"@) } else { None },
        PanelSource::State { name } => if name@.len() == 0 { Some(":state source needs :name"@) } else { None },
        PanelSource::Query { name } => if name@.len() == 0 { Some(":query source needs :name"@) } else { None },
        PanelSource::Static { .. } => None,
    }
}

impl InspectorSpec {
    /// Why the panel is rejected, if it is.
    pub open spec fn rejection(&self) -> Option<Seq<char>> {
        if trim(self.name@).len() == 0 {
            Some("inspector panel name is empty"@)
        } else if trim(self.title@).len() == 0 {
            Some("inspector panel '"@ + self.name@ + "' has empty :title"@)
        } else {
            match missing_source_field(self.source) {
                Some(m) => Some("inspector '"@ + self.name@ + "' "@ + m),
                None => None,
            }
        }
    }

    /// The refresh interval clamped to 1 ..= 3600 seconds.
    pub fn clamped_refresh(&self) -> (r: u32)
        ensures
            r == if self.refresh_seconds < 1 {
                1
            } else if self.refresh_seconds > 3600 {
                3600
            } else {
                self.refresh_seconds
            },
    {
        if self.refresh_seconds < 1 {
            1
        } else if self.refresh_seconds > 3600 {
            3600
        } else {
            self.refresh_seconds
        }
    }

    /// Checks the name, the title, and the field the source needs.
    pub fn validate(&self) -> (r: Result<(), String>)
        ensures
            match self.rejection() {
                Some(m) => r matches Err(e) && e@ == m,
                None => r is Ok,
            },
    {
        let n = chars_of(self.name.as_str());
        if trim_chars(n.as_slice()).len() == 0 {
            return Err(owned("inspector panel name is empty"));
        }
        let t = chars_of(self.title.as_str());
        if trim_chars(t.as_slice()).len() == 0 {
            let mut m = owned("inspector panel '");
            push_str(&mut m, self.name.as_str());
            push_str(&mut m, "' has empty :title");
            return Err(m);
        }
        let missing: Option<&str> = match &self.source {
            PanelSource::Http { url } => if chars_of(url.as_str()).len() == 0 { Some(":http source needs :url") } else { None },
            PanelSource::Mcp { tool, .. } => if chars_of(tool.as_str()).len() == 0 { Some(":mcp source needs :tool") } else { None },
            PanelSource::Storage { name } => if chars_of(name.as_str()).len() == 0 { Some(":storage source needs :name") } else { None },
            PanelSource::State { name } => if chars_of(name.as_str()).len() == 0 { Some(":state source needs :name") } else { None },
            PanelSource::Query { name } => if chars_of(name.as_str()).len() == 0 { Some(":query source needs :name") } else { None },
            PanelSource::Static { .. } => None,
        };
        match missing {
            Some(tail) => {
                let mut m = owned("inspector '");
                push_str(&mut m, self.name.as_str());
                push_str(&mut m, "' ");
                push_str(&mut m, tail);
                Err(m)
            },
            None => Ok(()),
        }
    }
}

/// `s` after inserting each valid panel of `items` in order; invalid ones are skipped.
pub open spec fn inserted_valid(s: Seq<InspectorSpec>, items: Seq<InspectorSpec>) -> Seq<InspectorSpec>
    decreases items.len(),
{
    if items.len() == 0 {
        s
    } else {
        let prev = inserted_valid(s, items.drop_last());
        if items.last().rejection().is_none() {
            upserted(prev, items.last())
        } else {
            prev
        }
    }
}

/// A panel is visible.
pub open spec fn panel_visible() -> spec_fn(InspectorSpec) -> bool {
    |s: InspectorSpec| s.visible
}

/// Inspector panels, one per name; every entry passed validation.
#[derive(Debug)]
pub struct InspectorRegistry {
    specs: Vec<InspectorSpec>,
}

impl View for InspectorRegistry {
    type V = Seq<InspectorSpec>;

    closed spec fn view(&self) -> Seq<InspectorSpec> {
        self.specs@
    }
}

impl InspectorRegistry {
    /// An empty registry.
    pub fn new() -> (r: Self)
        ensures
            r@ == Seq::<InspectorSpec>::empty(),
    {
        InspectorRegistry { specs: Vec::new() }
    }

    /// Adds `spec` when it validates, replacing any panel of the same name.
    pub fn insert(&mut self, spec: InspectorSpec) -> (r: Result<(), String>)
        ensures
            match spec.rejection() {
                Some(m) => r matches Err(e) && e@ == m && final(self)@ == old(self)@,
                None => r is Ok && final(self)@ == upserted(old(self)@, spec),
            },
    {
        match spec.validate() {
            Err(e) => Err(e),
            Ok(()) => {
                upsert(&mut self.specs, spec);
                Ok(())
            },
        }
    }

    /// Adds each valid panel in order; invalid ones are dropped.
    pub fn extend(&mut self, specs: Vec<InspectorSpec>)
        ensures
            final(self)@ == inserted_valid(old(self)@, specs@),
    {
        let ghost start = self@;
        let ghost all = specs@;
        for s in it: specs
            invariant
                it.seq() == all,
                self@ == inserted_valid(start, all.take(it.index() as int)),
        {
            proof {
                let k = it.index() as int;
                assert(all.take(k + 1).drop_last() =~= all.take(k));
                assert(all.take(k + 1).last() == all[k]);
            }
            let _ = self.insert(s);
        }
        proof {
            assert(all.take(all.len() as int) =~= all);
        }
    }

    /// Number of panels.
    pub fn len(&self) -> (r: usize)
        ensures
            r == self@.len(),
    {
        self.specs.len()
    }

    /// No panel is registered.
    pub fn is_empty(&self) -> (r: bool)
        ensures
            r == (self@.len() == 0),
    {
        self.specs.len() == 0
    }

    /// The panels in order.
    pub fn specs(&self) -> (r: &[InspectorSpec])
        ensures
            r@ == self@,
    {
        self.specs.as_slice()
    }

    /// The first panel named `name`.
    pub fn get(&self, name: &str) -> (r: Option<&InspectorSpec>)
        ensures
            match index_of_key(self@, name@) {
                Some(i) => r == Some(&self@[i]),
                None => r.is_none(),
            },
    {
        match find_key(&self.specs, name) {
            Some(i) => {
                proof {
                    lemma_first_where_spec(self.specs@, crate::registry::key_equals::<InspectorSpec>(name@));
                }
                Some(&self.specs[i])
            },
            None => None,
        }
    }

    /// The visible panels, in order.
    pub fn visible(&self) -> (r: Vec<&InspectorSpec>)
        ensures
            r@.map_values(|x: &InspectorSpec| *x) == self@.filter(panel_visible()),
    {
        let ghost pred = panel_visible();
        let mut out: Vec<&InspectorSpec> = Vec::new();
        let mut i: usize = 0;
        while i < self.specs.len()
            invariant
                i <= self.specs@.len(),
                pred == panel_visible(),
                out@.map_values(|x: &InspectorSpec| *x) == self.specs@.take(i as int).filter(pred),
            decreases self.specs@.len() - i,
        {
            let s = &self.specs[i];
            let ghost before = out@;
            proof {
                let t = self.specs@.take(i + 1);
                assert(t.drop_last() =~= self.specs@.take(i as int));
                reveal_with_fuel(Seq::<_>::filter, 1);
            }
            if s.visible {
                out.push(s);
                assert(out@.map_values(|x: &InspectorSpec| *x) =~= before.map_values(|x: &InspectorSpec| *x).push(*s));
            }
            i += 1;
        }
        proof {
            assert(self.specs@.take(self.specs@.len() as int) =~= self.specs@);
        }
        out
    }
}

} // verus!
