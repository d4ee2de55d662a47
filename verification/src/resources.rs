//! Resource capabilities: the descriptor data the protocol lists, the
//! read-result model, the handler surface a resource implementation
//! fills in, and the URI-keyed registry.

use vstd::prelude::*;
use vstd::string::*;
use crate::registry::Registry;

verus! {

/// An icon of a resource at the specification level.
pub struct SpecIcon {
    pub src: Seq<char>,
    pub mime_type: Seq<char>,
    pub sizes: Seq<Seq<char>>,
}

/// An icon a resource offers for display.
#[derive(Debug, Clone)]
pub struct ResourceIcon {
    pub src: String,
    pub mime_type: String,
    pub sizes: Vec<String>,
}

impl View for ResourceIcon {
    type V = SpecIcon;

    open spec fn view(&self) -> SpecIcon {
        SpecIcon { src: self.src@, mime_type: self.mime_type@, sizes: self.sizes.deep_view() }
    }
}

impl DeepView for ResourceIcon {
    type V = SpecIcon;

    open spec fn deep_view(&self) -> SpecIcon {
        self.view()
    }
}

/// A resource descriptor at the specification level.
pub struct SpecResource {
    pub uri: Seq<char>,
    pub name: Seq<char>,
    pub description: Seq<char>,
    pub mime_type: Seq<char>,
    pub title: Option<Seq<char>>,
    pub size: Option<u64>,
    pub icons: Seq<SpecIcon>,
}

/// What the protocol knows of one resource: its identity and metadata.
/// `title`, `size` and `icons` are optional; an absent field is left
/// out of the listing altogether.
#[derive(Debug, Clone)]
pub struct ResourceSchemaData {
    pub uri: String,
    pub name: String,
    pub description: String,
    pub mime_type: String,
    pub title: Option<String>,
    pub size: Option<u64>,
    pub icons: Vec<ResourceIcon>,
}

impl View for ResourceSchemaData {
    type V = SpecResource;

    open spec fn view(&self) -> SpecResource {
        SpecResource {
            uri: self.uri@,
            name: self.name@,
            description: self.description@,
            mime_type: self.mime_type@,
            title: self.title.deep_view(),
            size: self.size,
            icons: self.icons.deep_view(),
        }
    }
}

impl DeepView for ResourceSchemaData {
    type V = SpecResource;

    open spec fn deep_view(&self) -> SpecResource {
        self.view()
    }
}

/// One piece of content at the specification level.
pub struct SpecContent {
    pub uri: Seq<char>,
    pub mime_type: Seq<char>,
    pub text: Option<Seq<char>>,
    pub blob: Option<Seq<char>>,
}

/// One piece of a read resource: text content or base64 binary content.
#[derive(Debug, Clone)]
pub struct ResourceContent {
    pub uri: String,
    pub mime_type: String,
    /// Text content (a direct string field on the wire).
    pub text: Option<String>,
    /// Binary content (a base64-encoded string on the wire).
    pub blob: Option<String>,
}

impl View for ResourceContent {
    type V = SpecContent;

    open spec fn view(&self) -> SpecContent {
        SpecContent {
            uri: self.uri@,
            mime_type: self.mime_type@,
            text: self.text.deep_view(),
            blob: self.blob.deep_view(),
        }
    }
}

impl DeepView for ResourceContent {
    type V = SpecContent;

    open spec fn deep_view(&self) -> SpecContent {
        self.view()
    }
}

/// What reading a resource produced.
#[derive(Debug, Clone)]
pub struct ResourceReadResult {
    pub contents: Vec<ResourceContent>,
}

impl View for ResourceReadResult {
    type V = Seq<SpecContent>;

    open spec fn view(&self) -> Seq<SpecContent> {
        self.contents.deep_view()
    }
}

/// The handler surface a resource implementation fills in: reading is
/// the implementation's own work, and nothing is assumed of it here.
pub trait McpResourceService {
    fn read_resource(&self, uri: &str) -> Result<ResourceReadResult, String>;
}

/// A registered resource: its descriptor data together with the
/// handler that serves reads.
pub struct ResourceExecutor<H> {
    pub resource_uri: String,
    pub resource_name: String,
    pub description: String,
    pub mime_type: String,
    pub title: Option<String>,
    pub size: Option<u64>,
    pub icons: Vec<ResourceIcon>,
    pub holder: H,
}

fn clone_strings(v: &Vec<String>) -> (r: Vec<String>)
    ensures
        r.deep_view() == v.deep_view(),
{
    let mut out: Vec<String> = Vec::new();
    let mut i: usize = 0;
    while i < v.len()
        invariant
            i <= v.len(),
            out.deep_view() == v.deep_view().take(i as int),
        decreases v.len() - i,
    {
        assert(v.deep_view().len() == v@.len());
        let ghost prev = out@;
        let ghost dv = out.deep_view();
        assert(dv.len() == prev.len());
        assert(dv == v.deep_view().take(i as int));
        assert(dv.len() == i as int);
        let c = v[i].clone();
        out.push(c);
        assert(out@ == prev.push(c));
        assert(out@.len() == i + 1);
        assert forall|j: int| 0 <= j < i + 1 implies out.deep_view()[j] == v.deep_view().take(
            i + 1,
        )[j] by {
            assert(out.deep_view()[j] == out@[j]@);
            if j < i {
                assert(out@[j] == prev[j]);
            } else {
                assert(out@[j] == c);
                assert(c@ == v@[i as int]@);
            }
        }
        assert(out.deep_view() =~= v.deep_view().take(i + 1));
        i = i + 1;
    }
    assert(v.deep_view().take(v.len() as int) =~= v.deep_view());
    out
}

fn clone_opt_string(o: &Option<String>) -> (r: Option<String>)
    ensures
        r.deep_view() == o.deep_view(),
{
    match o {
        Some(s) => Some(s.clone()),
        None => None,
    }
}

fn clone_icons(v: &Vec<ResourceIcon>) -> (r: Vec<ResourceIcon>)
    ensures
        r.deep_view() == v.deep_view(),
{
    let mut out: Vec<ResourceIcon> = Vec::new();
    let mut i: usize = 0;
    while i < v.len()
        invariant
            i <= v.len(),
            out.deep_view() == v.deep_view().take(i as int),
        decreases v.len() - i,
    {
        assert(v.deep_view().len() == v@.len());
        let ghost prev = out@;
        let ghost dv = out.deep_view();
        assert(dv.len() == prev.len());
        assert(dv == v.deep_view().take(i as int));
        assert(dv.len() == i as int);
        let ic = &v[i];
        let c = ResourceIcon {
            src: ic.src.clone(),
            mime_type: ic.mime_type.clone(),
            sizes: clone_strings(&ic.sizes),
        };
        assert(c@ == v@[i as int]@);
        out.push(c);
        assert(out@.len() == i + 1);
        assert forall|j: int| 0 <= j < i + 1 implies out.deep_view()[j] == v.deep_view().take(
            i + 1,
        )[j] by {
            if j < i {
                assert(out@[j] == prev[j]);
            } else {
                assert(out@[j]@ == v@[i as int]@);
            }
        }
        assert(out.deep_view() =~= v.deep_view().take(i + 1));
        i = i + 1;
    }
    assert(v.deep_view().take(v.len() as int) =~= v.deep_view());
    out
}

impl<H> ResourceExecutor<H> {
    /// The descriptor this registration shows in listings.
    pub open spec fn spec_schema(&self) -> SpecResource {
        SpecResource {
            uri: self.resource_uri@,
            name: self.resource_name@,
            description: self.description@,
            mime_type: self.mime_type@,
            title: self.title.deep_view(),
            size: self.size,
            icons: self.icons.deep_view(),
        }
    }

    pub fn schema(&self) -> (r: ResourceSchemaData)
        ensures
            r@ == self.spec_schema(),
    {
        ResourceSchemaData {
            uri: self.resource_uri.clone(),
            name: self.resource_name.clone(),
            description: self.description.clone(),
            mime_type: self.mime_type.clone(),
            title: clone_opt_string(&self.title),
            size: self.size,
            icons: clone_icons(&self.icons),
        }
    }

    pub fn get_resource_uri(&self) -> (r: &str)
        ensures
            r@ == self.resource_uri@,
    {
        self.resource_uri.as_str()
    }

    pub fn get_resource_name(&self) -> (r: &str)
        ensures
            r@ == self.resource_name@,
    {
        self.resource_name.as_str()
    }

    pub fn get_description(&self) -> (r: &str)
        ensures
            r@ == self.description@,
    {
        self.description.as_str()
    }

    pub fn get_mime_type(&self) -> (r: &str)
        ensures
            r@ == self.mime_type@,
    {
        self.mime_type.as_str()
    }

    pub fn get_size(&self) -> (r: Option<u64>)
        ensures
            r == self.size,
    {
        self.size
    }

    pub fn get_icons(&self) -> (r: Vec<ResourceIcon>)
        ensures
            r.deep_view() == self.icons.deep_view(),
    {
        clone_icons(&self.icons)
    }
}

impl<H> Default for McpResources<H> {
    /// An empty registry, as [`McpResources::new`] builds it.
    fn default() -> (r: McpResources<H>)
        ensures
            r.wf(),
            r.reg.spec_entries().len() == 0,
    {
        McpResources::new()
    }
}

/// The error text when no resource is registered under a URI.
pub open spec fn spec_resource_not_found(uri: Seq<char>) -> Seq<char> {
    "Resource with URI "@ + uri + " is not found"@
}

fn resource_not_found(uri: &str) -> (r: String)
    ensures
        r@ == spec_resource_not_found(uri@),
{
    let mut m = String::from_str("Resource with URI ");
    m.append(uri);
    m.append(" is not found");
    m
}

/// The URI-keyed resource registry.  A registration's key is its
/// executor's URI; listing walks the registry in URI order.
pub struct McpResources<H> {
    pub reg: Registry<ResourceExecutor<H>>,
}

impl<H> McpResources<H> {
    /// Sorted, and every entry stands under its own URI.
    pub open spec fn wf(&self) -> bool {
        &&& self.reg.wf()
        &&& forall|j: int|
            0 <= j < self.reg.spec_entries().len() ==> (#[trigger] self.reg.spec_entries()[j]).0
                == self.reg.spec_entries()[j].1.resource_uri@
    }

    /// The registered executor under `uri`, if any.
    pub open spec fn spec_get(&self, uri: Seq<char>) -> Option<ResourceExecutor<H>> {
        crate::registry::spec_find(self.reg.spec_entries(), uri)
    }

    pub fn new() -> (r: McpResources<H>)
        ensures
            r.wf(),
            r.reg.spec_entries().len() == 0,
    {
        McpResources { reg: Registry::new() }
    }

    /// Registers `executor` under its URI, overwriting any previous
    /// registration under the same URI.
    pub fn add(&mut self, executor: ResourceExecutor<H>)
        requires
            old(self).wf(),
        ensures
            final(self).wf(),
            final(self).spec_get(executor.resource_uri@) == Some(executor),
            forall|k: Seq<char>|
                k != executor.resource_uri@ ==> #[trigger] final(self).spec_get(k) == old(
                    self,
                ).spec_get(k),
            final(self).reg.spec_entries().len() >= 1,
    {
        let key = executor.resource_uri.clone();
        self.reg.insert(key, executor);
    }

    /// Finds the executor under `uri`, as [`Self::spec_get`] defines.
    pub fn get(&self, uri: &str) -> (r: Option<&ResourceExecutor<H>>)
        ensures
            (match self.spec_get(uri@) {
                Some(v) => r matches Some(rv) && *rv == v,
                None => r is None,
            }),
    {
        self.reg.get(uri)
    }

    /// Whether any resource is registered; drives capability
    /// negotiation.
    pub fn has_resources(&self) -> (r: bool)
        ensures
            r == (self.reg.spec_entries().len() != 0),
    {
        !self.reg.is_empty()
    }

    /// The descriptors of every registered resource, in URI order.
    pub fn get_list(&self) -> (r: Vec<ResourceSchemaData>)
        requires
            self.wf(),
        ensures
            r.deep_view() == Seq::new(
                self.reg.spec_entries().len(),
                |j: int| self.reg.spec_entries()[j].1.spec_schema(),
            ),
    {
        let ghost es = self.reg.spec_entries();
        let ghost target = Seq::new(es.len(), |j: int| es[j].1.spec_schema());
        let n = self.reg.len();
        let mut out: Vec<ResourceSchemaData> = Vec::new();
        let mut i: usize = 0;
        while i < n
            invariant
                i <= n,
                n == es.len(),
                es == self.reg.spec_entries(),
                target == Seq::new(es.len(), |j: int| es[j].1.spec_schema()),
                out.deep_view() == target.take(i as int),
            decreases n - i,
        {
            assert(target.len() == es.len());
            let ghost prev = out@;
            let ghost dv = out.deep_view();
            assert(dv.len() == prev.len());
            assert(dv == target.take(i as int));
            assert(dv.len() == i as int);
            let c = self.reg.entry_at(i).1.schema();
            assert(c@ == target[i as int]);
            out.push(c);
            assert(out@.len() == i + 1);
            assert forall|j: int| 0 <= j < i + 1 implies out.deep_view()[j] == target.take(
                i + 1,
            )[j] by {
                if j < i {
                    assert(out@[j] == prev[j]);
                } else {
                    assert(out@[j]@ == target[i as int]);
                }
            }
            assert(out.deep_view() =~= target.take(i + 1));
            i = i + 1;
        }
        assert(target.take(n as int) =~= target);
        out
    }
}

impl<H: McpResourceService> McpResources<H> {
    /// Reads the resource under `uri` through its handler.  When no
    /// resource is registered there, the error names the missing URI;
    /// a registered handler's result is passed through as it came.
    pub fn read(&self, uri: &str) -> (r: Result<ResourceReadResult, String>)
        ensures
            self.spec_get(uri@) is None ==> (r matches Err(e) && e@ == spec_resource_not_found(
                uri@,
            )),
    {
        match self.get(uri) {
            Some(executor) => executor.holder.read_resource(uri),
            None => Err(resource_not_found(uri)),
        }
    }
}

/// The resource listing is sorted: walked in registry order, the URIs
/// of the listed descriptors are strictly increasing.
pub proof fn lemma_resources_list_sorted<H>(m: &McpResources<H>)
    requires
        m.wf(),
    ensures
        forall|i: int, j: int|
            0 <= i < j < m.reg.spec_entries().len() ==> crate::registry::lex_lt(
                (#[trigger] m.reg.spec_entries()[i]).1.spec_schema().uri,
                (#[trigger] m.reg.spec_entries()[j]).1.spec_schema().uri,
            ),
{
    assert forall|i: int, j: int|
        0 <= i < j < m.reg.spec_entries().len() implies crate::registry::lex_lt(
        (#[trigger] m.reg.spec_entries()[i]).1.spec_schema().uri,
        (#[trigger] m.reg.spec_entries()[j]).1.spec_schema().uri,
    ) by {
        m.reg.lemma_keys_are_entry_keys();
        assert(m.reg.spec_entries()[i].0 == m.reg.spec_keys()[i]);
        assert(m.reg.spec_entries()[j].0 == m.reg.spec_keys()[j]);
        assert(crate::registry::lex_lt(m.reg.spec_keys()[i], m.reg.spec_keys()[j]));
    }
}

} // verus!
