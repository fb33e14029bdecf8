//! The plugins' catalogue: the tools each loaded plugin offers, which
//! plugin answers a tool, and the definitions they add.

use vstd::prelude::*;
use crate::text::{owned};
use crate::tool::{ToolDefinition};
use crate::tools::{def_view, defs_view};

verus! {

/// A loaded plugin, as the catalogue knows it.
pub struct PluginInfo {
    pub name: String,
    pub version: String,
    pub tools: Vec<ToolDefinition>,
}

/// The loaded plugins, in load order.
pub struct PluginManager {
    plugins: Vec<PluginInfo>,
}

/// The tool definitions of the plugins, plugin by plugin.
pub open spec fn plugin_tools(ps: Seq<PluginInfo>) -> Seq<(Seq<char>, Seq<char>, Seq<char>)>
    decreases ps.len(),
{
    if ps.len() == 0 {
        seq![]
    } else {
        plugin_tools(ps.drop_last()) + defs_view(ps.last().tools@)
    }
}

/// Whether plugin `p` offers a tool named `name`.
pub open spec fn offers(p: PluginInfo, name: Seq<char>) -> bool {
    exists|j: int| 0 <= j < p.tools@.len() && (#[trigger] p.tools@[j]).name@ == name
}

fn copy_defs(v: &Vec<ToolDefinition>) -> (r: Vec<ToolDefinition>)
    ensures
        defs_view(r@) == defs_view(v@),
{
    let mut r: Vec<ToolDefinition> = Vec::new();
    let mut i: usize = 0;
    while i < v.len()
        invariant
            i <= v.len(),
            defs_view(r@) == defs_view(v@).take(i as int),
        decreases v.len() - i,
    {
        let d = v[i].clone();
        proof {
            assert(defs_view(r@.push(d)) =~= defs_view(r@).push(def_view(d)));
            assert(defs_view(v@).take(i + 1) =~= defs_view(v@).take(i as int).push(def_view(v@[i as int])));
        }
        r.push(d);
        i += 1;
    }
    assert(defs_view(v@).take(v.len() as int) =~= defs_view(v@));
    r
}

impl PluginManager {
    pub closed spec fn plugins(&self) -> Seq<PluginInfo> {
        self.plugins@
    }

    /// A catalogue with no plugin.
    pub fn new() -> (m: Self)
        ensures
            m.plugins() == Seq::<PluginInfo>::empty(),
    {
        PluginManager { plugins: Vec::new() }
    }

    /// Adds a loaded plugin after the others.
    pub fn register(&mut self, plugin: PluginInfo)
        ensures
            final(self).plugins() == old(self).plugins().push(plugin),
    {
        self.plugins.push(plugin);
    }

    /// The plugin that answers a tool: the first one offering a tool of
    /// that name.
    pub fn find_tool(&self, name: &str) -> (r: Option<usize>)
        ensures
            match r {
                Some(i) => i < self.plugins().len() && offers(self.plugins()[i as int], name@)
                    && forall|k: int| 0 <= k < i ==> !offers(#[trigger] self.plugins()[k], name@),
                None => forall|k: int| 0 <= k < self.plugins().len() ==> !offers(#[trigger] self.plugins()[k], name@),
            },
    {
        let target = owned(name);
        let mut i: usize = 0;
        while i < self.plugins.len()
            invariant
                i <= self.plugins.len(),
                target@ == name@,
                forall|k: int| 0 <= k < i ==> !offers(#[trigger] self.plugins@[k], name@),
            decreases self.plugins.len() - i,
        {
            let tools = &self.plugins[i].tools;
            let mut j: usize = 0;
            while j < tools.len()
                invariant
                    j <= tools.len(),
                    i < self.plugins@.len(),
                    tools@ == self.plugins@[i as int].tools@,
                    target@ == name@,
                    forall|k: int| 0 <= k < i ==> !offers(#[trigger] self.plugins@[k], name@),
                    forall|x: int| 0 <= x < j ==> (#[trigger] tools@[x]).name@ != name@,
                decreases tools.len() - j,
            {
                if tools[j].name == target {
                    assert(self.plugins@[i as int].tools@[j as int].name@ == name@);
                    assert(offers(self.plugins@[i as int], name@));
                    return Some(i);
                }
                j += 1;
            }
            i += 1;
        }
        None
    }

    /// The number of loaded plugins.
    pub fn count(&self) -> (n: usize)
        ensures
            n == self.plugins().len(),
    {
        self.plugins.len()
    }
}

/// The definitions of every plugin's tools, plugin by plugin.
pub fn get_tool_definitions(mgr: &PluginManager) -> (v: Vec<ToolDefinition>)
    ensures
        defs_view(v@) == plugin_tools(mgr.plugins()),
{
    let mut v: Vec<ToolDefinition> = Vec::new();
    let mut i: usize = 0;
    while i < mgr.plugins.len()
        invariant
            i <= mgr.plugins.len(),
            defs_view(v@) == plugin_tools(mgr.plugins@.take(i as int)),
        decreases mgr.plugins.len() - i,
    {
        let more = copy_defs(&mgr.plugins[i].tools);
        let ghost before = v@;
        let mut k: usize = 0;
        while k < more.len()
            invariant
                k <= more.len(),
                defs_view(v@) == defs_view(before) + defs_view(more@).take(k as int),
            decreases more.len() - k,
        {
            let d = more[k].clone();
            proof {
                assert(defs_view(v@.push(d)) =~= defs_view(v@).push(def_view(d)));
                assert(defs_view(more@).take(k + 1) =~= defs_view(more@).take(k as int).push(def_view(more@[k as int])));
            }
            v.push(d);
            k += 1;
        }
        proof {
            assert(defs_view(more@).take(more.len() as int) =~= defs_view(more@));
            assert(mgr.plugins@.take(i + 1).drop_last() =~= mgr.plugins@.take(i as int));
        }
        i += 1;
    }
    assert(mgr.plugins@.take(mgr.plugins.len() as int) =~= mgr.plugins@);
    v
}

} // verus!
