//! Tool capabilities: the descriptor data the tool listing shows, the
//! handler surface a tool implementation fills in, and the name-keyed
//! registry.

use vstd::prelude::*;
use vstd::string::*;
use crate::registry::Registry;

verus! {

/// A tool descriptor at the specification level.
pub struct SpecTool {
    pub name: Seq<char>,
    pub description: Seq<char>,
    pub input: Seq<char>,
    pub output: Seq<char>,
}

/// What the tool listing shows of one tool.  `input` and `output` hold
/// the already rendered JSON schemas of the tool's parameters and
/// result; both are mandatory for tools.
#[derive(Debug, Clone)]
pub struct ToolCallSchemaData {
    pub name: String,
    pub description: String,
    pub input: String,
    pub output: String,
}

impl View for ToolCallSchemaData {
    type V = SpecTool;

    open spec fn view(&self) -> SpecTool {
        SpecTool {
            name: self.name@,
            description: self.description@,
            input: self.input@,
            output: self.output@,
        }
    }
}

impl DeepView for ToolCallSchemaData {
    type V = SpecTool;

    open spec fn deep_view(&self) -> SpecTool {
        self.view()
    }
}

/// The handler surface a tool implementation fills in: it takes the
/// call's raw argument JSON, and nothing is assumed of its result
/// here.
pub trait McpToolService {
    fn execute_tool(&self, arguments: &str) -> Result<String, String>;
}

/// A registered tool: its descriptor data together with the handler
/// that runs it.
pub struct ToolExecutor<H> {
    pub name: String,
    pub description: String,
    pub input: String,
    pub output: String,
    pub holder: H,
}

impl<H> ToolExecutor<H> {
    /// The descriptor this registration shows in listings.
    pub open spec fn spec_schema(&self) -> SpecTool {
        SpecTool {
            name: self.name@,
            description: self.description@,
            input: self.input@,
            output: self.output@,
        }
    }

    pub fn schema(&self) -> (r: ToolCallSchemaData)
        ensures
            r@ == self.spec_schema(),
    {
        ToolCallSchemaData {
            name: self.name.clone(),
            description: self.description.clone(),
            input: self.input.clone(),
            output: self.output.clone(),
        }
    }
}

/// The error text when no tool is registered under a name.
pub open spec fn spec_tool_not_found(name: Seq<char>) -> Seq<char> {
    "Tool with name "@ + name + " is not found"@
}

fn tool_not_found(name: &str) -> (r: String)
    ensures
        r@ == spec_tool_not_found(name@),
{
    let mut m = String::from_str("Tool with name ");
    m.append(name);
    m.append(" is not found");
    m
}

/// The name-keyed tool registry.  A registration's key is its
/// executor's name; listing walks the registry in name order.
pub struct McpTools<H> {
    pub reg: Registry<ToolExecutor<H>>,
}

impl<H> McpTools<H> {
    /// Sorted, and every entry stands under its own name.
    pub open spec fn wf(&self) -> bool {
        &&& self.reg.wf()
        &&& forall|j: int|
            0 <= j < self.reg.spec_entries().len() ==> (#[trigger] self.reg.spec_entries()[j]).0
                == self.reg.spec_entries()[j].1.name@
    }

    /// The registered executor under `name`, if any.
    pub open spec fn spec_get(&self, name: Seq<char>) -> Option<ToolExecutor<H>> {
        crate::registry::spec_find(self.reg.spec_entries(), name)
    }

    pub fn new() -> (r: McpTools<H>)
        ensures
            r.wf(),
            r.reg.spec_entries().len() == 0,
    {
        McpTools { reg: Registry::new() }
    }

    /// Registers `executor` under its name, overwriting any previous
    /// registration under the same name.
    pub fn add(&mut self, executor: ToolExecutor<H>)
        requires
            old(self).wf(),
        ensures
            final(self).wf(),
            final(self).spec_get(executor.name@) == Some(executor),
            forall|k: Seq<char>|
                k != executor.name@ ==> #[trigger] final(self).spec_get(k) == old(self).spec_get(
                    k,
                ),
            final(self).reg.spec_entries().len() >= 1,
    {
        let key = executor.name.clone();
        self.reg.insert(key, executor);
    }

    /// Finds the executor under `name`, as [`Self::spec_get`] defines.
    pub fn get(&self, name: &str) -> (r: Option<&ToolExecutor<H>>)
        ensures
            (match self.spec_get(name@) {
                Some(v) => r matches Some(rv) && *rv == v,
                None => r is None,
            }),
    {
        self.reg.get(name)
    }

    /// Whether any tool is registered; drives capability negotiation.
    pub fn has_tools(&self) -> (r: bool)
        ensures
            r == (self.reg.spec_entries().len() != 0),
    {
        !self.reg.is_empty()
    }

    /// The descriptors of every registered tool, in name order.
    pub fn get_list(&self) -> (r: Vec<ToolCallSchemaData>)
        requires
            self.wf(),
        ensures
            r.deep_view() == Seq::new(
                self.reg.spec_entries().len(),
                |j: int| self.reg.spec_entries()[j].1.spec_schema(),
            ),
    {
        let ghost es = self.reg.spec_entries();
        let ghost target = Seq::new(es.len(), |j: int| es[j].1.spec_schema());
        let n = self.reg.len();
        let mut out: Vec<ToolCallSchemaData> = Vec::new();
        let mut i: usize = 0;
        while i < n
            invariant
                i <= n,
                n == es.len(),
                es == self.reg.spec_entries(),
                target == Seq::new(es.len(), |j: int| es[j].1.spec_schema()),
                out.deep_view() == target.take(i as int),
            decreases n - i,
        {
            assert(target.len() == es.len());
            let ghost prev = out@;
            let ghost dv = out.deep_view();
            assert(dv.len() == prev.len());
            assert(dv == target.take(i as int));
            assert(dv.len() == i as int);
            let c = self.reg.entry_at(i).1.schema();
            assert(c@ == target[i as int]);
            out.push(c);
            assert(out@.len() == i + 1);
            assert forall|j: int| 0 <= j < i + 1 implies out.deep_view()[j] == target.take(
                i + 1,
            )[j] by {
                if j < i {
                    assert(out@[j] == prev[j]);
                } else {
                    assert(out@[j]@ == target[i as int]);
                }
            }
            assert(out.deep_view() =~= target.take(i + 1));
            i = i + 1;
        }
        assert(target.take(n as int) =~= target);
        out
    }
}

impl<H: McpToolService> McpTools<H> {
    /// Runs the tool under `name` on the raw argument JSON.  When no
    /// tool is registered there, the error names the missing name; a
    /// registered handler's result is passed through as it came.
    pub fn execute(&self, name: &str, arguments: &str) -> (r: Result<String, String>)
        ensures
            self.spec_get(name@) is None ==> (r matches Err(e) && e@ == spec_tool_not_found(
                name@,
            )),
    {
        match self.get(name) {
            Some(executor) => executor.holder.execute_tool(arguments),
            None => Err(tool_not_found(name)),
        }
    }
}

impl<H> Default for McpTools<H> {
    /// An empty registry, as [`McpTools::new`] builds it.
    fn default() -> (r: McpTools<H>)
        ensures
            r.wf(),
            r.reg.spec_entries().len() == 0,
    {
        McpTools::new()
    }
}

/// The tool listing is sorted: walked in registry order, the names of
/// the listed descriptors are strictly increasing.
pub proof fn lemma_tools_list_sorted<H>(m: &McpTools<H>)
    requires
        m.wf(),
    ensures
        forall|i: int, j: int|
            0 <= i < j < m.reg.spec_entries().len() ==> crate::registry::lex_lt(
                (#[trigger] m.reg.spec_entries()[i]).1.spec_schema().name,
                (#[trigger] m.reg.spec_entries()[j]).1.spec_schema().name,
            ),
{
    assert forall|i: int, j: int|
        0 <= i < j < m.reg.spec_entries().len() implies crate::registry::lex_lt(
        (#[trigger] m.reg.spec_entries()[i]).1.spec_schema().name,
        (#[trigger] m.reg.spec_entries()[j]).1.spec_schema().name,
    ) by {
        m.reg.lemma_keys_are_entry_keys();
        assert(m.reg.spec_entries()[i].0 == m.reg.spec_keys()[i]);
        assert(m.reg.spec_entries()[j].0 == m.reg.spec_keys()[j]);
        assert(crate::registry::lex_lt(m.reg.spec_keys()[i], m.reg.spec_keys()[j]));
    }
}

} // verus!
