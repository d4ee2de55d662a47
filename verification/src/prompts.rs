//! Prompt capabilities: argument descriptors, the prompt definition
//! builder, the handler surface a prompt implementation fills in, and
//! the name-keyed registry.

use vstd::prelude::*;
use vstd::string::*;
use crate::json_text::{
    dedup_last_wins, is_json_text, object_pairs, skip_ws, spec_is_json_text, spec_last_wins,
    spec_object_pairs, spec_skip_ws, spec_string_content, spec_unescape, str_eq, string_content,
    unescape,
};
use crate::registry::Registry;

verus! {

/// A prompt argument at the specification level.
pub struct SpecPromptArgument {
    pub name: Seq<char>,
    pub description: Seq<char>,
    pub required: bool,
}

/// One named argument a prompt takes.
#[derive(Debug, Clone)]
pub struct PromptArgument {
    pub name: String,
    pub description: String,
    pub required: bool,
}

impl View for PromptArgument {
    type V = SpecPromptArgument;

    open spec fn view(&self) -> SpecPromptArgument {
        SpecPromptArgument {
            name: self.name@,
            description: self.description@,
            required: self.required,
        }
    }
}

impl DeepView for PromptArgument {
    type V = SpecPromptArgument;

    open spec fn deep_view(&self) -> SpecPromptArgument {
        self.view()
    }
}

/// A prompt definition at the specification level.
pub struct SpecPrompt {
    pub name: Seq<char>,
    pub description: Seq<char>,
    pub arguments: Seq<SpecPromptArgument>,
}

/// A prompt definition: name, description and ordered argument list.
#[derive(Debug, Clone)]
pub struct PromptDefinition {
    pub name: String,
    pub description: String,
    pub arguments: Vec<PromptArgument>,
}

impl View for PromptDefinition {
    type V = SpecPrompt;

    open spec fn view(&self) -> SpecPrompt {
        SpecPrompt {
            name: self.name@,
            description: self.description@,
            arguments: self.arguments.deep_view(),
        }
    }
}

impl DeepView for PromptDefinition {
    type V = SpecPrompt;

    open spec fn deep_view(&self) -> SpecPrompt {
        self.view()
    }
}

impl PromptDefinition {
    /// A definition with no arguments yet.
    pub fn new(name: String, description: String) -> (r: PromptDefinition)
        ensures
            r@.name == name@,
            r@.description == description@,
            r@.arguments == Seq::<SpecPromptArgument>::empty(),
    {
        let r = PromptDefinition { name, description, arguments: Vec::new() };
        assert(r@.arguments =~= Seq::<SpecPromptArgument>::empty());
        r
    }

    /// The definition with one argument appended, builder style.
    pub fn with_argument(self, name: String, description: String, required: bool) -> (r:
        PromptDefinition)
        ensures
            r@.name == self@.name,
            r@.description == self@.description,
            r@.arguments == self@.arguments.push(
                SpecPromptArgument { name: name@, description: description@, required },
            ),
    {
        let ghost orig = self@;
        let ghost arg = SpecPromptArgument { name: name@, description: description@, required };
        let mut s = self;
        s.arguments.push(PromptArgument { name, description, required });
        assert(s@.arguments =~= orig.arguments.push(arg));
        s
    }

    /// Appends one argument in place.
    pub fn add_argument(&mut self, name: String, description: String, required: bool)
        ensures
            final(self)@.name == old(self)@.name,
            final(self)@.description == old(self)@.description,
            final(self)@.arguments == old(self)@.arguments.push(
                SpecPromptArgument { name: name@, description: description@, required },
            ),
    {
        let ghost arg = SpecPromptArgument { name: name@, description: description@, required };
        self.arguments.push(PromptArgument { name, description, required });
        assert(self@.arguments =~= old(self)@.arguments.push(arg));
    }
}

/// A prompt descriptor as the listing shows it.
pub struct SpecPromptSchema {
    pub name: Seq<char>,
    pub description: Seq<char>,
    pub arguments: Seq<SpecPromptArgument>,
}

/// What the prompt listing shows of one prompt.
#[derive(Debug, Clone)]
pub struct PromptSchemaData {
    pub name: String,
    pub description: String,
    pub argument_descriptions: Vec<PromptArgument>,
}

impl View for PromptSchemaData {
    type V = SpecPromptSchema;

    open spec fn view(&self) -> SpecPromptSchema {
        SpecPromptSchema {
            name: self.name@,
            description: self.description@,
            arguments: self.argument_descriptions.deep_view(),
        }
    }
}

impl DeepView for PromptSchemaData {
    type V = SpecPromptSchema;

    open spec fn deep_view(&self) -> SpecPromptSchema {
        self.view()
    }
}

/// What one prompt execution produced: a description and the message
/// handed back to the caller.
#[derive(Debug, Clone)]
pub struct PromptExecutionResult {
    pub description: String,
    pub message: String,
}

/// The handler surface a prompt implementation fills in: it takes the
/// arguments as name/value pairs in document order, and nothing is
/// assumed of its result here.
pub trait McpPromptService {
    fn execute_prompt(&self, arguments: Vec<(String, String)>) -> Result<String, String>;
}

/// A registered prompt: its descriptor data together with the handler
/// that executes it.
pub struct PromptExecutor<H> {
    pub prompt_name: String,
    pub description: String,
    pub argument_descriptions: Vec<PromptArgument>,
    pub holder: H,
}

/// The plain text one JSON value stands for when handed to a prompt:
/// a string is unescaped, `null` becomes the empty string, any other
/// value keeps its raw text.
pub open spec fn spec_plain_value(v: Seq<char>) -> Option<Seq<char>> {
    if v.len() > 0 && v[0] == '"' {
        spec_string_content(v)
    } else if v == "null"@ {
        Some(Seq::empty())
    } else {
        Some(v)
    }
}

/// Every pair of a prompt-input object as plain text: the key
/// unescaped, the value as [`spec_plain_value`] reads it.
pub open spec fn spec_plain_args(ps: Seq<(Seq<char>, Seq<char>)>) -> Option<
    Seq<(Seq<char>, Seq<char>)>,
>
    decreases ps.len(),
{
    if ps.len() == 0 {
        Some(Seq::empty())
    } else {
        match (spec_unescape(ps[0].0), spec_plain_value(ps[0].1), spec_plain_args(ps.skip(1))) {
            (Some(k), Some(v), Some(rest)) => Some(seq![(k, v)] + rest),
            _ => None,
        }
    }
}

/// What a prompt-input text stands for.  The text must be one valid
/// JSON value: an object's top-level pairs become plain-text arguments,
/// the last occurrence of a repeated key winning; a valid value of any
/// other kind carries no arguments; invalid text carries nothing.
pub open spec fn spec_prompt_input(input: Seq<char>) -> Option<Seq<(Seq<char>, Seq<char>)>> {
    if !spec_is_json_text(input) {
        None
    } else {
        let t = spec_skip_ws(input, 0);
        if t < input.len() && input[t] == '{' {
            match spec_object_pairs(input) {
                Some(ps) => match spec_plain_args(ps) {
                    Some(args) => Some(spec_last_wins(args)),
                    None => None,
                },
                None => None,
            }
        } else {
            Some(Seq::empty())
        }
    }
}

fn plain_value(v: &str) -> (r: Option<String>)
    ensures
        (match spec_plain_value(v@) {
            Some(t) => r matches Some(u) && u@ == t,
            None => r is None,
        }),
{
    let n = v.unicode_len();
    if n > 0 && v.get_char(0) == '"' {
        string_content(v)
    } else if str_eq(v, "null") {
        Some(String::new())
    } else {
        Some(String::from_str(v))
    }
}

/// Decodes a prompt-input text, as [`spec_prompt_input`] defines.
pub fn prompt_input_args(input: &str) -> (r: Option<Vec<(String, String)>>)
    ensures
        (match spec_prompt_input(input@) {
            Some(args) => r matches Some(v) && v.deep_view() == args,
            None => r is None,
        }),
{
    if !is_json_text(input) {
        return None;
    }
    let n = input.unicode_len();
    let t = skip_ws(input, n, 0);
    if t >= n || input.get_char(t) != '{' {
        let empty: Vec<(String, String)> = Vec::new();
        assert(empty.deep_view() =~= Seq::<(Seq<char>, Seq<char>)>::empty());
        return Some(empty);
    }
    let pairs = match object_pairs(input) {
        Some(ps) => ps,
        None => {
            return None;
        },
    };
    let ghost ps = pairs.deep_view();
    let mut out: Vec<(String, String)> = Vec::new();
    let mut i: usize = 0;
    assert(ps.skip(0) =~= ps);
    while i < pairs.len()
        invariant
            i <= pairs.len(),
            ps == pairs.deep_view(),
            spec_object_pairs(input@) == Some(ps),
            (spec_plain_args(ps) is Some) <==> (spec_plain_args(ps.skip(i as int)) is Some),
            spec_plain_args(ps) is Some ==> spec_plain_args(ps) == Some(
                out.deep_view() + spec_plain_args(ps.skip(i as int))->Some_0,
            ),
        decreases pairs.len() - i,
    {
        let ghost suf = ps.skip(i as int);
        assert(suf[0] == ps[i as int]);
        assert(ps[i as int] == (pairs[i as int].0@, pairs[i as int].1@));
        assert(suf.skip(1) =~= ps.skip(i + 1));
        let k = match unescape(pairs[i].0.as_str()) {
            Some(k) => k,
            None => {
                return None;
            },
        };
        let v = match plain_value(pairs[i].1.as_str()) {
            Some(v) => v,
            None => {
                return None;
            },
        };
        let ghost pair = (k@, v@);
        out.push((k, v));
        proof {
            if spec_plain_args(ps.skip(i + 1)) is Some {
                let rest = spec_plain_args(ps.skip(i + 1))->Some_0;
                assert(out.deep_view() + rest =~= (out.deep_view().drop_last()) + (seq![pair]
                    + rest));
            }
        }
        i = i + 1;
    }
    assert(ps.skip(pairs.len() as int) =~= Seq::<(Seq<char>, Seq<char>)>::empty());
    proof {
        if spec_plain_args(ps) is Some {
            assert(out.deep_view() + Seq::<(Seq<char>, Seq<char>)>::empty() =~= out.deep_view());
        }
    }
    Some(dedup_last_wins(&out))
}

/// The error text when a prompt input is not one JSON object of plain
/// values.
pub open spec fn spec_bad_prompt_input(input: Seq<char>) -> Seq<char> {
    "Can not deserialize input data "@ + input
}

/// The error text when no prompt is registered under a name.
pub open spec fn spec_prompt_not_found(name: Seq<char>) -> Seq<char> {
    "Prompt with name "@ + name + " is not found"@
}

fn prompt_not_found(name: &str) -> (r: String)
    ensures
        r@ == spec_prompt_not_found(name@),
{
    let mut m = String::from_str("Prompt with name ");
    m.append(name);
    m.append(" is not found");
    m
}

fn clone_arguments(v: &Vec<PromptArgument>) -> (r: Vec<PromptArgument>)
    ensures
        r.deep_view() == v.deep_view(),
{
    let mut out: Vec<PromptArgument> = Vec::new();
    let mut i: usize = 0;
    while i < v.len()
        invariant
            i <= v.len(),
            out.deep_view() == v.deep_view().take(i as int),
        decreases v.len() - i,
    {
        assert(v.deep_view().len() == v@.len());
        let ghost prev = out@;
        let ghost dv = out.deep_view();
        assert(dv.len() == prev.len());
        assert(dv == v.deep_view().take(i as int));
        assert(dv.len() == i as int);
        let a = &v[i];
        let c = PromptArgument {
            name: a.name.clone(),
            description: a.description.clone(),
            required: a.required,
        };
        assert(c@ == v@[i as int]@);
        out.push(c);
        assert(out@.len() == i + 1);
        assert forall|j: int| 0 <= j < i + 1 implies out.deep_view()[j] == v.deep_view().take(
            i + 1,
        )[j] by {
            if j < i {
                assert(out@[j] == prev[j]);
            } else {
                assert(out@[j]@ == v@[i as int]@);
            }
        }
        assert(out.deep_view() =~= v.deep_view().take(i + 1));
        i = i + 1;
    }
    assert(v.deep_view().take(v.len() as int) =~= v.deep_view());
    out
}

impl<H> PromptExecutor<H> {
    /// The descriptor this registration shows in listings.
    pub open spec fn spec_schema(&self) -> SpecPromptSchema {
        SpecPromptSchema {
            name: self.prompt_name@,
            description: self.description@,
            arguments: self.argument_descriptions.deep_view(),
        }
    }

    pub fn schema(&self) -> (r: PromptSchemaData)
        ensures
            r@ == self.spec_schema(),
    {
        PromptSchemaData {
            name: self.prompt_name.clone(),
            description: self.description.clone(),
            argument_descriptions: clone_arguments(&self.argument_descriptions),
        }
    }

    pub fn get_prompt_name(&self) -> (r: &str)
        ensures
            r@ == self.prompt_name@,
    {
        self.prompt_name.as_str()
    }

    pub fn get_description(&self) -> (r: &str)
        ensures
            r@ == self.description@,
    {
        self.description.as_str()
    }

    pub fn get_argument_descriptions(&self) -> (r: Vec<PromptArgument>)
        ensures
            r.deep_view() == self.argument_descriptions.deep_view(),
    {
        clone_arguments(&self.argument_descriptions)
    }
}

impl<H> Default for McpPrompts<H> {
    /// An empty registry, as [`McpPrompts::new`] builds it.
    fn default() -> (r: McpPrompts<H>)
        ensures
            r.wf(),
            r.reg.spec_entries().len() == 0,
    {
        McpPrompts::new()
    }
}

impl<H: McpPromptService> PromptExecutor<H> {
    /// Decodes the input and hands the arguments to the handler: a
    /// JSON object's top-level pairs as plain text, any other valid
    /// JSON value as no arguments at all.  Only an input that does not
    /// decode is rejected, with an error naming it, and then the
    /// handler is not called; a decoded input's result is the
    /// handler's own.
    pub fn execute(&self, input: &str) -> (r: Result<String, String>)
        ensures
            spec_prompt_input(input@) is None ==> (r matches Err(e) && e@ == spec_bad_prompt_input(
                input@,
            )),
    {
        match prompt_input_args(input) {
            Some(args) => self.holder.execute_prompt(args),
            None => {
                let mut m = String::from_str("Can not deserialize input data ");
                m.append(input);
                Err(m)
            },
        }
    }
}

/// The name-keyed prompt registry.  A registration's key is its
/// executor's prompt name; listing walks the registry in name order.
pub struct McpPrompts<H> {
    pub reg: Registry<PromptExecutor<H>>,
}

impl<H> McpPrompts<H> {
    /// Sorted, and every entry stands under its own name.
    pub open spec fn wf(&self) -> bool {
        &&& self.reg.wf()
        &&& forall|j: int|
            0 <= j < self.reg.spec_entries().len() ==> (#[trigger] self.reg.spec_entries()[j]).0
                == self.reg.spec_entries()[j].1.prompt_name@
    }

    /// The registered executor under `name`, if any.
    pub open spec fn spec_get(&self, name: Seq<char>) -> Option<PromptExecutor<H>> {
        crate::registry::spec_find(self.reg.spec_entries(), name)
    }

    pub fn new() -> (r: McpPrompts<H>)
        ensures
            r.wf(),
            r.reg.spec_entries().len() == 0,
    {
        McpPrompts { reg: Registry::new() }
    }

    /// Registers `executor` under its prompt name, overwriting any
    /// previous registration under the same name.
    pub fn add(&mut self, executor: PromptExecutor<H>)
        requires
            old(self).wf(),
        ensures
            final(self).wf(),
            final(self).spec_get(executor.prompt_name@) == Some(executor),
            forall|k: Seq<char>|
                k != executor.prompt_name@ ==> #[trigger] final(self).spec_get(k) == old(
                    self,
                ).spec_get(k),
            final(self).reg.spec_entries().len() >= 1,
    {
        let key = executor.prompt_name.clone();
        self.reg.insert(key, executor);
    }

    /// Finds the executor under `name`, as [`Self::spec_get`] defines.
    pub fn get(&self, name: &str) -> (r: Option<&PromptExecutor<H>>)
        ensures
            (match self.spec_get(name@) {
                Some(v) => r matches Some(rv) && *rv == v,
                None => r is None,
            }),
    {
        self.reg.get(name)
    }

    /// Whether any prompt is registered; drives capability negotiation.
    pub fn has_prompts(&self) -> (r: bool)
        ensures
            r == (self.reg.spec_entries().len() != 0),
    {
        !self.reg.is_empty()
    }

    /// The descriptors of every registered prompt, in name order.
    pub fn get_list(&self) -> (r: Vec<PromptSchemaData>)
        requires
            self.wf(),
        ensures
            r.deep_view() == Seq::new(
                self.reg.spec_entries().len(),
                |j: int| self.reg.spec_entries()[j].1.spec_schema(),
            ),
    {
        let ghost es = self.reg.spec_entries();
        let ghost target = Seq::new(es.len(), |j: int| es[j].1.spec_schema());
        let n = self.reg.len();
        let mut out: Vec<PromptSchemaData> = Vec::new();
        let mut i: usize = 0;
        while i < n
            invariant
                i <= n,
                n == es.len(),
                es == self.reg.spec_entries(),
                target == Seq::new(es.len(), |j: int| es[j].1.spec_schema()),
                out.deep_view() == target.take(i as int),
            decreases n - i,
        {
            assert(target.len() == es.len());
            let ghost prev = out@;
            let ghost dv = out.deep_view();
            assert(dv.len() == prev.len());
            assert(dv == target.take(i as int));
            assert(dv.len() == i as int);
            let c = self.reg.entry_at(i).1.schema();
            assert(c@ == target[i as int]);
            out.push(c);
            assert(out@.len() == i + 1);
            assert forall|j: int| 0 <= j < i + 1 implies out.deep_view()[j] == target.take(
                i + 1,
            )[j] by {
                if j < i {
                    assert(out@[j] == prev[j]);
                } else {
                    assert(out@[j]@ == target[i as int]);
                }
            }
            assert(out.deep_view() =~= target.take(i + 1));
            i = i + 1;
        }
        assert(target.take(n as int) =~= target);
        out
    }
}

impl<H: McpPromptService> McpPrompts<H> {
    /// Executes the prompt under `prompt_name` on `input`.  When no
    /// prompt is registered there, the error names the missing name;
    /// a registered executor's result is passed through as it came.
    pub fn execute(&self, prompt_name: &str, input: &str) -> (r: Result<String, String>)
        ensures
            self.spec_get(prompt_name@) is None ==> (r matches Err(e) && e@
                == spec_prompt_not_found(prompt_name@)),
    {
        match self.get(prompt_name) {
            Some(executor) => executor.execute(input),
            None => Err(prompt_not_found(prompt_name)),
        }
    }
}

/// The prompt listing is sorted: walked in registry order, the names of the listed descriptors are strictly increasing.
pub proof fn lemma_prompts_list_sorted<H>(m: &McpPrompts<H>)
    requires
        m.wf(),
    ensures
        forall|i: int, j: int|
            0 <= i < j < m.reg.spec_entries().len() ==> crate::registry::lex_lt(
                (#[trigger] m.reg.spec_entries()[i]).1.spec_schema().name,
                (#[trigger] m.reg.spec_entries()[j]).1.spec_schema().name,
            ),
{
    assert forall|i: int, j: int|
        0 <= i < j < m.reg.spec_entries().len() implies crate::registry::lex_lt(
        (#[trigger] m.reg.spec_entries()[i]).1.spec_schema().name,
        (#[trigger] m.reg.spec_entries()[j]).1.spec_schema().name,
    ) by {
        m.reg.lemma_keys_are_entry_keys();
        assert(m.reg.spec_entries()[i].0 == m.reg.spec_keys()[i]);
        assert(m.reg.spec_entries()[j].0 == m.reg.spec_keys()[j]);
        assert(crate::registry::lex_lt(m.reg.spec_keys()[i], m.reg.spec_keys()[j]));
    }
}

} // verus!
