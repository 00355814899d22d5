//! The syntax tree of `.orbit` files.
use vstd::prelude::*;

verus! {

/// A parsed `.orbit` file.
#[derive(Debug)]
pub struct OrbitAst {
    /// The template's root element.
    pub template: TemplateNode,
    /// The style section.
    pub style: StyleNode,
    /// The script section.
    pub script: ScriptNode,
}

/// A node of the template tree.
#[derive(Debug)]
pub enum TemplateNode {
    /// An element: its tag, attributes (name and value, each name once),
    /// event handlers (event and handler, each event once) and children.
    Element {
        tag: String,
        attributes: Vec<(String, AttributeValue)>,
        events: Vec<(String, String)>,
        children: Vec<TemplateNode>,
    },
    /// An expression between `{{` and `}}`.
    Expression(String),
    /// Text.
    Text(String),
}

/// An attribute value: written out, or an expression inside `{{ }}`.
#[derive(Debug, Clone)]
pub enum AttributeValue {
    /// A literal value.
    Static(String),
    /// An expression.
    Dynamic(String),
}

/// The style section.
#[derive(Debug, Clone)]
pub struct StyleNode {
    /// Its rules.
    pub rules: Vec<StyleRule>,
    /// Whether the styles are scoped to the component.
    pub scoped: bool,
}

/// A CSS rule: a selector and its declarations (each property once).
#[derive(Debug, Clone)]
pub struct StyleRule {
    /// The selector.
    pub selector: String,
    /// (property, value) declarations.
    pub declarations: Vec<(String, String)>,
}

/// The script section.
#[derive(Debug, Clone)]
pub struct ScriptNode {
    /// `use` lines.
    pub imports: Vec<String>,
    /// The component's name.
    pub component_name: String,
    /// Declared properties.
    pub props: Vec<PropDefinition>,
    /// Declared state fields.
    pub state: Vec<StateDefinition>,
    /// Methods.
    pub methods: Vec<MethodDefinition>,
    /// Lifecycle hooks.
    pub lifecycle: Vec<LifecycleHook>,
}

/// A component property definition.
#[derive(Debug, Clone)]
pub struct PropDefinition {
    /// Name.
    pub name: String,
    /// Type.
    pub ty: String,
    /// Whether it must be given.
    pub required: bool,
    /// Default value, as written.
    pub default: Option<String>,
}

/// A state field definition.
#[derive(Debug, Clone)]
pub struct StateDefinition {
    /// Name.
    pub name: String,
    /// Type.
    pub ty: String,
    /// Initial value, as written.
    pub initial: Option<String>,
}

/// A method definition.
#[derive(Debug, Clone)]
pub struct MethodDefinition {
    /// Name.
    pub name: String,
    /// Arguments as (name, type).
    pub args: Vec<(String, String)>,
    /// Return type.
    pub return_type: Option<String>,
    /// Body.
    pub body: String,
}

/// A lifecycle hook.
#[derive(Debug, Clone)]
pub struct LifecycleHook {
    /// When it runs.
    pub hook_type: LifecycleType,
    /// Body.
    pub body: String,
}

/// When a lifecycle hook runs.
#[derive(Debug, Clone, Copy, PartialEq, Eq, Structural)]
pub enum LifecycleType {
    Created,
    Mounted,
    Updated,
    Destroyed,
}

impl OrbitAst {
    /// A syntax tree of the three sections.
    pub fn new(template: TemplateNode, style: StyleNode, script: ScriptNode) -> (r: Self)
        ensures
            r.template == template,
            r.style == style,
            r.script == script,
    {
        OrbitAst { template, style, script }
    }
}

/// The content of an attribute value.
pub enum AttrView {
    /// A literal value.
    Static(Seq<char>),
    /// An expression.
    Dynamic(Seq<char>),
}

/// The content of a template node.
pub enum NodeView {
    /// Tag, attributes, events and children.
    Element(Seq<char>, Seq<(Seq<char>, AttrView)>, Seq<(Seq<char>, Seq<char>)>, Seq<NodeView>),
    /// An expression.
    Expression(Seq<char>),
    /// Text.
    Text(Seq<char>),
}

/// The content of an attribute value.
pub open spec fn attr_view(a: AttributeValue) -> AttrView {
    match a {
        AttributeValue::Static(s) => AttrView::Static(s@),
        AttributeValue::Dynamic(s) => AttrView::Dynamic(s@),
    }
}

/// The contents of attribute pairs.
pub open spec fn attrs_view(a: Seq<(String, AttributeValue)>) -> Seq<(Seq<char>, AttrView)> {
    Seq::new(a.len(), |i: int| (a[i].0@, attr_view(a[i].1)))
}

/// The contents of event pairs.
pub open spec fn events_view(e: Seq<(String, String)>) -> Seq<(Seq<char>, Seq<char>)> {
    Seq::new(e.len(), |i: int| (e[i].0@, e[i].1@))
}

/// The content of a template node.
pub open spec fn node_view(n: TemplateNode) -> NodeView
    decreases n,
{
    match n {
        TemplateNode::Element { tag, attributes, events, children } => NodeView::Element(
            tag@,
            attrs_view(attributes@),
            events_view(events@),
            nodes_view(children@, children@.len() as int),
        ),
        TemplateNode::Expression(s) => NodeView::Expression(s@),
        TemplateNode::Text(s) => NodeView::Text(s@),
    }
}

/// The contents of the first `k` nodes.
pub open spec fn nodes_view(ns: Seq<TemplateNode>, k: int) -> Seq<NodeView>
    decreases ns, k,
{
    if k <= 0 || k > ns.len() {
        Seq::empty()
    } else {
        nodes_view(ns, k - 1).push(node_view(ns[k - 1]))
    }
}

/// `nodes_view` lists the contents of the nodes one by one.
pub proof fn lemma_nodes_view(ns: Seq<TemplateNode>, k: int)
    requires
        0 <= k <= ns.len(),
    ensures
        nodes_view(ns, k).len() == k,
        forall|j: int| 0 <= j < k ==> nodes_view(ns, k)[j] == node_view(#[trigger] ns[j]),
    decreases k,
{
    if k > 0 {
        lemma_nodes_view(ns, k - 1);
    }
}

impl View for TemplateNode {
    type V = NodeView;

    open spec fn view(&self) -> NodeView {
        node_view(*self)
    }
}

} // verus!
