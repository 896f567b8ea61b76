//! A small XML tree: elements, their attributes and their child nodes.

use vstd::prelude::*;

use crate::entries::{entries_view, get, insert, lookup, upsert};
use crate::text::{
    decimal, ends_with, has_suffix, optional_text, parse_i32, parse_i64, same_text, slices, texts,
};
use crate::views::{view_error, view_result};

verus! {

/// An XML element.
#[derive(Debug, PartialEq, Eq)]
pub struct Element {
    /// The namespace prefix of the element, if it has one.
    pub prefix: Option<String>,
    /// The namespace URI of the element, if it has one.
    pub namespace: Option<String>,
    /// The local name.
    pub name: String,
    /// The attributes, by name, in the order in which they were added.
    pub attributes: Vec<(String, String)>,
    /// The child nodes, in document order.
    pub children: Vec<Node>,
}

/// A child of an element: another element, or content that is carried along.
#[derive(Debug, PartialEq, Eq)]
pub enum Node {
    Element(Element),
    Comment(String),
    CData(String),
    Text(String),
    ProcessingInstruction(String, Option<String>),
}

#[verifier::external_type_specification]
#[verifier::external_body]
pub struct ExTimeError(chrono::ParseError);

/// The point in time that `text` reads as when it is parsed as a
/// `chrono::DateTime<chrono::Utc>`; `None` where chrono reports an error.
pub uninterp spec fn parsed_instant(text: Seq<char>) -> Option<Instant>;

/// `str::parse` for `chrono::DateTime<chrono::Utc>`. The result holds the timestamp of the
/// date and time that chrono read, in seconds and nanoseconds, or chrono's error.
#[verifier::external_body]
pub(crate) fn parse_instant(text: &str) -> (r: Result<Instant, chrono::ParseError>)
    ensures
        match r {
            Ok(instant) => parsed_instant(text@) == Some(instant),
            Err(_) => parsed_instant(text@) is None,
        },
{
    text.parse::<chrono::DateTime<chrono::Utc>>().map(
        |t| Instant { seconds: t.timestamp(), nanos: t.timestamp_subsec_nanos() },
    )
}

/// What a function on the tree reports when it fails.
#[derive(Debug, PartialEq)]
pub enum Error {
    /// An element was expected at the path, but not found.
    NotFoundAtPath { path: Vec<String> },
    /// The element was expected to hold child elements.
    ExpectedNotEmpty { parent: String },
    /// The element does not state the expected type, or holds no text.
    ExpectedElementWithType { name: String, expected_type: String, given: Option<String> },
    /// The text of the element is no integer of the expected width.
    ParseIntError { name: String },
    /// The text of the element is no floating-point number.
    ParseFloatError { name: String },
    /// The text of the element is no date and time.
    ParseDateTimeError { name: String, inner: chrono::ParseError },
    /// The element holds no text.
    Empty,
}

/// An element as a mathematical value.
pub struct ElementView {
    pub prefix: Option<Seq<char>>,
    pub namespace: Option<Seq<char>>,
    pub name: Seq<char>,
    pub attributes: Seq<(Seq<char>, Seq<char>)>,
    pub children: Seq<NodeView>,
}

/// A node as a mathematical value.
pub enum NodeView {
    Element(ElementView),
    Comment(Seq<char>),
    CData(Seq<char>),
    Text(Seq<char>),
    ProcessingInstruction(Seq<char>, Option<Seq<char>>),
}

impl View for Element {
    type V = ElementView;

    open spec fn view(&self) -> ElementView
        decreases self,
    {
        ElementView {
            prefix: optional_text(self.prefix),
            namespace: optional_text(self.namespace),
            name: self.name@,
            attributes: entries_view(self.attributes@),
            children: nodes_view(self.children@),
        }
    }
}

impl View for Error {
    type V = ErrorView;

    open spec fn view(&self) -> ErrorView {
        match self {
            Error::NotFoundAtPath { path } => ErrorView::NotFoundAtPath { path: texts(path@) },
            Error::ExpectedNotEmpty { parent } => ErrorView::ExpectedNotEmpty { parent: parent@ },
            Error::ExpectedElementWithType { name, expected_type, given } => {
                ErrorView::ExpectedElementWithType {
                    name: name@,
                    expected_type: expected_type@,
                    given: optional_text(*given),
                }
            },
            Error::ParseIntError { name } => ErrorView::ParseIntError { name: name@ },
            Error::ParseFloatError { name } => ErrorView::ParseFloatError { name: name@ },
            Error::ParseDateTimeError { name, inner } => ErrorView::ParseDateTimeError {
                name: name@,
            },
            Error::Empty => ErrorView::Empty,
        }
    }
}

impl View for Node {
    type V = NodeView;

    open spec fn view(&self) -> NodeView
        decreases self,
    {
        match self {
            Node::Element(e) => NodeView::Element(e.view()),
            Node::Comment(t) => NodeView::Comment(t@),
            Node::CData(t) => NodeView::CData(t@),
            Node::Text(t) => NodeView::Text(t@),
            Node::ProcessingInstruction(name, data) => NodeView::ProcessingInstruction(
                name@,
                optional_text(*data),
            ),
        }
    }
}

/// The nodes of a list as mathematical values.
pub open spec fn nodes_view(nodes: Seq<Node>) -> Seq<NodeView>
    decreases nodes,
{
    if nodes.len() == 0 {
        Seq::empty()
    } else {
        nodes_view(nodes.drop_last()).push(nodes.last().view())
    }
}

/// The elements of a list as mathematical values.
pub open spec fn elements_view(elements: Seq<Element>) -> Seq<ElementView> {
    Seq::new(elements.len(), |i: int| elements[i]@)
}

/// The elements of a list, each as a child node.
pub open spec fn as_nodes(elements: Seq<ElementView>) -> Seq<NodeView> {
    Seq::new(elements.len(), |i: int| NodeView::Element(elements[i]))
}

/// Whether a node is character data: text, or a CDATA section.
pub open spec fn is_character_data(node: NodeView) -> bool {
    node is Text || node is CData
}

/// The characters that a node contributes to the text of its parent.
pub open spec fn character_data(node: NodeView) -> Seq<char> {
    match node {
        NodeView::Text(t) => t,
        NodeView::CData(t) => t,
        _ => Seq::empty(),
    }
}

/// Whether some node of the list is character data.
pub open spec fn has_text(nodes: Seq<NodeView>) -> bool {
    exists|i: int| 0 <= i < nodes.len() && is_character_data(#[trigger] nodes[i])
}

/// The character data of the nodes, joined in document order.
pub open spec fn text_of(nodes: Seq<NodeView>) -> Seq<char>
    decreases nodes.len(),
{
    if nodes.len() == 0 {
        Seq::empty()
    } else {
        text_of(nodes.drop_last()) + character_data(nodes.last())
    }
}

/// The nodes that are no character data, in document order.
pub open spec fn markup_of(nodes: Seq<NodeView>) -> Seq<NodeView>
    decreases nodes.len(),
{
    if nodes.len() == 0 {
        Seq::empty()
    } else if is_character_data(nodes.last()) {
        markup_of(nodes.drop_last())
    } else {
        markup_of(nodes.drop_last()).push(nodes.last())
    }
}

/// Whether a node is an element called `name`.
pub open spec fn is_named(node: NodeView, name: Seq<char>) -> bool {
    node is Element && node->Element_0.name == name
}

/// Position of the first element called `name` among the nodes, or their number where no
/// element is called so.
pub open spec fn named_position(nodes: Seq<NodeView>, name: Seq<char>) -> int
    decreases nodes.len(),
{
    if nodes.len() == 0 || is_named(nodes[0], name) {
        0
    } else {
        1 + named_position(nodes.drop_first(), name)
    }
}

/// Position of the first element among the nodes, or their number where none is an element.
pub open spec fn element_position(nodes: Seq<NodeView>) -> int
    decreases nodes.len(),
{
    if nodes.len() == 0 || nodes[0] is Element {
        0
    } else {
        1 + element_position(nodes.drop_first())
    }
}

/// What a function on the tree reports when it fails, as a mathematical value.
pub enum ErrorView {
    NotFoundAtPath { path: Seq<Seq<char>> },
    ExpectedNotEmpty { parent: Seq<char> },
    ExpectedElementWithType { name: Seq<char>, expected_type: Seq<char>, given: Option<Seq<char>> },
    ParseIntError { name: Seq<char> },
    ParseFloatError { name: Seq<char> },
    ParseDateTimeError { name: Seq<char> },
    Empty,
}

/// A point in time: whole seconds since 1970-01-01T00:00:00Z, not counting leap seconds,
/// and the nanoseconds since that second began.
#[derive(Clone, Copy, Debug, PartialEq, Eq, Structural)]
pub struct Instant {
    pub seconds: i64,
    pub nanos: u32,
}

impl ElementView {
    /// The value of the attribute `name`, if the element has one.
    pub open spec fn attribute(self, name: Seq<char>) -> Option<Seq<char>> {
        lookup(self.attributes, name)
    }

    /// The character data directly inside the element, joined; `None` where it holds none.
    pub open spec fn text(self) -> Option<Seq<char>> {
        if has_text(self.children) {
            Some(text_of(self.children))
        } else {
            None
        }
    }

    /// The element with `text` as its only character data, in front of its other nodes.
    pub open spec fn with_text(self, text: Seq<char>) -> ElementView {
        ElementView { children: seq![NodeView::Text(text)] + markup_of(self.children), ..self }
    }

    /// The element that `path` leads to: each name picks the first child element of that
    /// name. Where a name picks none, the error lists the names up to and including it.
    pub open spec fn descend(self, path: Seq<Seq<char>>) -> Result<ElementView, ErrorView>
        decreases path.len(),
    {
        if path.len() == 0 {
            Ok(self)
        } else {
            let at = named_position(self.children, path[0]);
            if at < self.children.len() {
                match self.children[at]->Element_0.descend(path.drop_first()) {
                    Ok(found) => Ok(found),
                    Err(ErrorView::NotFoundAtPath { path: trace }) => Err(
                        ErrorView::NotFoundAtPath { path: seq![path[0]] + trace },
                    ),
                    Err(other) => Err(other),
                }
            } else {
                Err(ErrorView::NotFoundAtPath { path: seq![path[0]] })
            }
        }
    }

    /// The first child element, or the error that names the element as empty.
    pub open spec fn descend_first(self) -> Result<ElementView, ErrorView> {
        let at = element_position(self.children);
        if at < self.children.len() {
            Ok(self.children[at]->Element_0)
        } else {
            Err(ErrorView::ExpectedNotEmpty { parent: self.name })
        }
    }

    /// The text of the element, given that its `type` attribute ends with `xsd`.
    pub open spec fn typed_text(self, xsd: Seq<char>) -> Result<Seq<char>, ErrorView> {
        let given = self.attribute("type"@);
        if given is Some && self.text() is Some && has_suffix(given->0, xsd) {
            Ok(self.text()->0)
        } else {
            Err(
                ErrorView::ExpectedElementWithType {
                    name: self.name,
                    expected_type: "*:"@ + xsd,
                    given,
                },
            )
        }
    }

    /// The element read as an `int`.
    pub open spec fn as_int(self) -> Result<i32, ErrorView> {
        match self.typed_text("int"@) {
            Ok(text) => match decimal(text, i32::MIN as int, i32::MAX as int) {
                Some(n) => Ok(n as i32),
                None => Err(ErrorView::ParseIntError { name: self.name }),
            },
            Err(e) => Err(e),
        }
    }

    /// The element read as a `long`.
    pub open spec fn as_long(self) -> Result<i64, ErrorView> {
        match self.typed_text("long"@) {
            Ok(text) => match decimal(text, i64::MIN as int, i64::MAX as int) {
                Some(n) => Ok(n as i64),
                None => Err(ErrorView::ParseIntError { name: self.name }),
            },
            Err(e) => Err(e),
        }
    }

    /// The element read as a `boolean`: whether its text is `true`.
    pub open spec fn as_boolean(self) -> Result<bool, ErrorView> {
        match self.typed_text("boolean"@) {
            Ok(text) => Ok(text == "true"@),
            Err(e) => Err(e),
        }
    }

    /// The element read as a `string`.
    pub open spec fn as_string(self) -> Result<Seq<char>, ErrorView> {
        self.typed_text("string"@)
    }

    /// The element read as a `dateTime`.
    pub open spec fn as_datetime(self) -> Result<Instant, ErrorView> {
        match self.typed_text("dateTime"@) {
            Ok(text) => match parsed_instant(text) {
                Some(instant) => Ok(instant),
                None => Err(ErrorView::ParseDateTimeError { name: self.name }),
            },
            Err(e) => Err(e),
        }
    }

    /// An element that has a name and nothing else.
    pub open spec fn leaf(name: Seq<char>) -> ElementView {
        ElementView {
            prefix: None,
            namespace: None,
            name,
            attributes: Seq::empty(),
            children: Seq::empty(),
        }
    }

    /// The element under another name.
    pub open spec fn with_name(self, name: Seq<char>) -> ElementView {
        ElementView { name, ..self }
    }

    /// The element with the attribute `key` set to `value`: in its place where the element
    /// has such an attribute, behind the others where it has none.
    pub open spec fn with_attr(self, key: Seq<char>, value: Seq<char>) -> ElementView {
        ElementView { attributes: upsert(self.attributes, key, value), ..self }
    }

    /// The element with one more child element, behind the others.
    pub open spec fn with_child(self, child: ElementView) -> ElementView {
        ElementView { children: self.children.push(NodeView::Element(child)), ..self }
    }

    /// The element with more child elements, behind the others.
    pub open spec fn with_children(self, children: Seq<ElementView>) -> ElementView {
        ElementView { children: self.children + as_nodes(children), ..self }
    }
}

/// The views of a list of nodes are the views of its nodes, one for one.
pub proof fn lemma_nodes_view(nodes: Seq<Node>)
    ensures
        nodes_view(nodes).len() == nodes.len(),
        forall|i: int| 0 <= i < nodes.len() ==> (#[trigger] nodes_view(nodes)[i]) == nodes[i]@,
    decreases nodes.len(),
{
    if nodes.len() > 0 {
        lemma_nodes_view(nodes.drop_last());
        assert(nodes_view(nodes) == nodes_view(nodes.drop_last()).push(nodes.last().view()));
    } else {
        assert(nodes_view(nodes) == Seq::<NodeView>::empty());
    }
}

/// The view of a child element is the view of the element that it holds.
pub proof fn lemma_element_node_view(e: Element)
    ensures
        Node::Element(e)@ == NodeView::Element(e@),
{
}

/// Adding a node behind a list adds its view behind the views.
pub proof fn lemma_nodes_view_push(nodes: Seq<Node>, node: Node)
    ensures
        nodes_view(nodes.push(node)) == nodes_view(nodes).push(node@),
{
    assert(nodes.push(node).drop_last() == nodes);
}

/// The views of the first `k + 1` nodes are those of the first `k` and that of the next.
pub proof fn lemma_nodes_view_take(nodes: Seq<Node>, k: int)
    requires
        0 <= k < nodes.len(),
    ensures
        nodes_view(nodes.take(k + 1)) == nodes_view(nodes.take(k)).push(nodes[k]@),
        nodes_view(nodes.take(k + 1)) == nodes_view(nodes).take(k + 1),
        nodes_view(nodes.take(k)) == nodes_view(nodes).take(k),
{
    assert(nodes.take(k + 1).drop_last() == nodes.take(k));
    lemma_nodes_view(nodes);
    lemma_nodes_view(nodes.take(k));
    lemma_nodes_view(nodes.take(k + 1));
    assert(nodes_view(nodes.take(k + 1)) =~= nodes_view(nodes).take(k + 1));
    assert(nodes_view(nodes.take(k)) =~= nodes_view(nodes).take(k));
}

/// What `named_position` finds: the first element of that name, or the end.
pub proof fn lemma_named_position(nodes: Seq<NodeView>, name: Seq<char>)
    ensures
        0 <= named_position(nodes, name) <= nodes.len(),
        named_position(nodes, name) < nodes.len() ==> is_named(
            nodes[named_position(nodes, name)],
            name,
        ),
        forall|i: int|
            0 <= i < named_position(nodes, name) ==> !is_named(#[trigger] nodes[i], name),
    decreases nodes.len(),
{
    if nodes.len() == 0 || is_named(nodes[0], name) {
    } else {
        let rest = nodes.drop_first();
        lemma_named_position(rest, name);
        assert forall|i: int| 0 <= i < named_position(nodes, name) implies !is_named(
            #[trigger] nodes[i],
            name,
        ) by {
            if i > 0 {
                assert(nodes[i] == rest[i - 1]);
            }
        }
    }
}

/// `at` is what `named_position` gives where it is the first element of that name, or the
/// end where there is none.
pub proof fn lemma_named_position_is(nodes: Seq<NodeView>, name: Seq<char>, at: int)
    requires
        0 <= at <= nodes.len(),
        at < nodes.len() ==> is_named(nodes[at], name),
        forall|i: int| 0 <= i < at ==> !is_named(#[trigger] nodes[i], name),
    ensures
        named_position(nodes, name) == at,
{
    lemma_named_position(nodes, name);
}

/// What `element_position` finds: the first element, or the end.
pub proof fn lemma_element_position(nodes: Seq<NodeView>)
    ensures
        0 <= element_position(nodes) <= nodes.len(),
        element_position(nodes) < nodes.len() ==> nodes[element_position(nodes)] is Element,
        forall|i: int| 0 <= i < element_position(nodes) ==> !((#[trigger] nodes[i]) is Element),
    decreases nodes.len(),
{
    if nodes.len() == 0 || nodes[0] is Element {
    } else {
        let rest = nodes.drop_first();
        lemma_element_position(rest);
        assert forall|i: int| 0 <= i < element_position(nodes) implies !((#[trigger] nodes[i])
            is Element) by {
            if i > 0 {
                assert(nodes[i] == rest[i - 1]);
            }
        }
    }
}

/// `at` is what `element_position` gives where it is the first element, or the end where
/// there is none.
pub proof fn lemma_element_position_is(nodes: Seq<NodeView>, at: int)
    requires
        0 <= at <= nodes.len(),
        at < nodes.len() ==> nodes[at] is Element,
        forall|i: int| 0 <= i < at ==> !((#[trigger] nodes[i]) is Element),
    ensures
        element_position(nodes) == at,
{
    lemma_element_position(nodes);
}

/// Position of the first element called `name` among the nodes, or their number.
pub(crate) fn find_named(nodes: &Vec<Node>, name: &str) -> (at: usize)
    ensures
        at == named_position(nodes_view(nodes@), name@),
        at <= nodes.len(),
        at < nodes.len() ==> nodes[at as int] is Element,
{
    let wanted = name.to_owned();
    let mut i: usize = 0;
    proof {
        lemma_nodes_view(nodes@);
    }
    while i < nodes.len()
        invariant
            i <= nodes.len(),
            wanted@ == name@,
            nodes_view(nodes@).len() == nodes.len(),
            forall|j: int| 0 <= j < nodes.len() ==> (#[trigger] nodes_view(nodes@)[j]) == nodes[j]@,
            forall|j: int| 0 <= j < i ==> !is_named(#[trigger] nodes_view(nodes@)[j], name@),
        decreases nodes.len() - i,
    {
        let found = match &nodes[i] {
            Node::Element(e) => e.name == wanted,
            _ => false,
        };
        assert(found == is_named(nodes_view(nodes@)[i as int], name@));
        if found {
            proof {
                lemma_named_position_is(nodes_view(nodes@), name@, i as int);
            }
            return i;
        }
        i += 1;
    }
    proof {
        lemma_named_position_is(nodes_view(nodes@), name@, i as int);
    }
    i
}

/// Position of the first element among the nodes, or their number.
fn find_element(nodes: &Vec<Node>) -> (at: usize)
    ensures
        at == element_position(nodes_view(nodes@)),
        at <= nodes.len(),
        at < nodes.len() ==> nodes[at as int] is Element,
{
    let mut i: usize = 0;
    proof {
        lemma_nodes_view(nodes@);
    }
    while i < nodes.len()
        invariant
            i <= nodes.len(),
            nodes_view(nodes@).len() == nodes.len(),
            forall|j: int| 0 <= j < nodes.len() ==> (#[trigger] nodes_view(nodes@)[j]) == nodes[j]@,
            forall|j: int| 0 <= j < i ==> !((#[trigger] nodes_view(nodes@)[j]) is Element),
        decreases nodes.len() - i,
    {
        let found = match &nodes[i] {
            Node::Element(_) => true,
            _ => false,
        };
        assert(found == (nodes_view(nodes@)[i as int] is Element));
        if found {
            proof {
                lemma_element_position_is(nodes_view(nodes@), i as int);
            }
            return i;
        }
        i += 1;
    }
    proof {
        lemma_element_position_is(nodes_view(nodes@), i as int);
    }
    i
}

/// A copy of an optional string.
fn copy_optional(text: &Option<String>) -> (r: Option<String>)
    ensures
        r == *text,
{
    match text {
        Some(t) => Some(t.clone()),
        None => None,
    }
}

impl Node {
    /// A deep copy of the node.
    pub fn cloned(&self) -> (r: Node)
        ensures
            r@ == self@,
        decreases self,
    {
        match self {
            Node::Element(e) => Node::Element(e.cloned()),
            Node::Comment(t) => Node::Comment(t.clone()),
            Node::CData(t) => Node::CData(t.clone()),
            Node::Text(t) => Node::Text(t.clone()),
            Node::ProcessingInstruction(name, data) => Node::ProcessingInstruction(
                name.clone(),
                copy_optional(data),
            ),
        }
    }
}

/// The element that a node is.
pub fn into_element(node: Node) -> (r: Element)
    requires
        node is Element,
    ensures
        Node::Element(r) == node,
{
    match node {
        Node::Element(e) => e,
        _ => Element::node(""),
    }
}

impl Element {
    /// Creates an element that has a name and nothing else.
    pub fn node(name: &str) -> (r: Element)
        ensures
            r@ == ElementView::leaf(name@),
    {
        let r = Element {
            prefix: None,
            namespace: None,
            name: name.to_owned(),
            attributes: Vec::new(),
            children: Vec::new(),
        };
        assert(r@.attributes =~= Seq::empty());
        r
    }

    /// Gives the element another name.
    pub fn with_name(self, name: &str) -> (r: Element)
        ensures
            r@ == self@.with_name(name@),
    {
        let Element { prefix, namespace, name: _, attributes, children } = self;
        Element { prefix, namespace, name: name.to_owned(), attributes, children }
    }

    /// Sets the attribute `key` to `value`.
    pub fn with_attr(self, key: &str, value: &str) -> (r: Element)
        ensures
            r@ == self@.with_attr(key@, value@),
    {
        let Element { prefix, namespace, name, attributes, children } = self;
        let mut attributes = attributes;
        insert(&mut attributes, key.to_owned(), value.to_owned());
        Element { prefix, namespace, name, attributes, children }
    }

    /// Adds a child element behind the others.
    pub fn with_child(self, child: Element) -> (r: Element)
        ensures
            r@ == self@.with_child(child@),
    {
        let Element { prefix, namespace, name, attributes, children } = self;
        let mut children = children;
        children.push(Node::Element(child));
        let r = Element { prefix, namespace, name, attributes, children };
        proof {
            lemma_nodes_view(r.children@);
            lemma_nodes_view(self.children@);
            lemma_element_node_view(child);
            assert(r@.children =~= self@.children.push(NodeView::Element(child@)));
        }
        r
    }
    /// Adds child elements behind the others, in their order.
    pub fn with_children(self, children: Vec<Element>) -> (r: Element)
        ensures
            r@ == self@.with_children(elements_view(children@)),
    {
        let Element { prefix, namespace, name, attributes, children: nodes } = self;
        let mut nodes = nodes;
        let ghost before = nodes@;
        let ghost added = children@;
        assert(nodes_view(before) + as_nodes(elements_view(added.take(0))) =~= nodes_view(before));
        for child in it: children.into_iter()
            invariant
                it.seq() == added,
                nodes_view(nodes@) == nodes_view(before) + as_nodes(
                    elements_view(added.take(it.index() as int)),
                ),
        {
            proof {
                lemma_nodes_view_push(nodes@, Node::Element(child));
                lemma_element_node_view(child);
                let k = it.index() as int;
                assert(as_nodes(elements_view(added.take(k + 1))) =~= as_nodes(
                    elements_view(added.take(k)),
                ).push(NodeView::Element(child@)));
            }
            nodes.push(Node::Element(child));
        }
        assert(added.take(added.len() as int) == added);
        Element { prefix, namespace, name, attributes, children: nodes }
    }

    /// Adds copies of elements as children behind the others, in their order.
    pub fn with_children_from_iter(self, children: &[Element]) -> (r: Element)
        ensures
            r@ == self@.with_children(elements_view(children@)),
    {
        let Element { prefix, namespace, name, attributes, children: nodes } = self;
        let mut nodes = nodes;
        let ghost before = nodes@;
        assert(nodes_view(before) + as_nodes(elements_view(children@.take(0))) =~= nodes_view(
            before,
        ));
        let mut i: usize = 0;
        while i < children.len()
            invariant
                i <= children.len(),
                nodes_view(nodes@) == nodes_view(before) + as_nodes(
                    elements_view(children@.take(i as int)),
                ),
            decreases children.len() - i,
        {
            let child = children[i].cloned();
            proof {
                lemma_nodes_view_push(nodes@, Node::Element(child));
                lemma_element_node_view(child);
                assert(as_nodes(elements_view(children@.take(i + 1))) =~= as_nodes(
                    elements_view(children@.take(i as int)),
                ).push(NodeView::Element(child@)));
            }
            nodes.push(Node::Element(child));
            i += 1;
        }
        assert(children@.take(children@.len() as int) == children@);
        Element { prefix, namespace, name, attributes, children: nodes }
    }

    /// Makes `text` the only character data of the element, in front of its other nodes.
    pub fn with_text(self, text: &str) -> (r: Element)
        ensures
            r@ == self@.with_text(text@),
    {
        let Element { prefix, namespace, name, attributes, children } = self;
        let mut kept: Vec<Node> = Vec::new();
        kept.push(Node::Text(text.to_owned()));
        let ghost before = children@;
        proof {
            lemma_nodes_view(kept@);
            assert(nodes_view(kept@) =~= seq![NodeView::Text(text@)] + markup_of(
                nodes_view(before.take(0)),
            ));
        }
        for node in it: children.into_iter()
            invariant
                it.seq() == before,
                nodes_view(kept@) == seq![NodeView::Text(text@)] + markup_of(
                    nodes_view(before.take(it.index() as int)),
                ),
        {
            let keep = match &node {
                Node::Text(_) => false,
                Node::CData(_) => false,
                _ => true,
            };
            proof {
                let k = it.index() as int;
                lemma_nodes_view_take(before, k);
                lemma_nodes_view_push(kept@, node);
                let views = nodes_view(before.take(k + 1));
                assert(views.drop_last() == nodes_view(before.take(k)));
                assert(views.last() == node@);
                assert(keep == !is_character_data(node@));
                if keep {
                    assert(seq![NodeView::Text(text@)] + markup_of(views) =~= (seq![
                        NodeView::Text(text@),
                    ] + markup_of(nodes_view(before.take(k)))).push(node@));
                }
            }
            if keep {
                kept.push(node);
            }
        }
        assert(before.take(before.len() as int) == before);
        Element { prefix, namespace, name, attributes, children: kept }
    }

    /// A deep copy of the element.
    pub fn cloned(&self) -> (r: Element)
        ensures
            r@ == self@,
        decreases self,
    {
        let mut attributes: Vec<(String, String)> = Vec::new();
        let mut i: usize = 0;
        while i < self.attributes.len()
            invariant
                i <= self.attributes.len(),
                attributes@ == self.attributes@.take(i as int),
            decreases self.attributes.len() - i,
        {
            let entry = &self.attributes[i];
            attributes.push((entry.0.clone(), entry.1.clone()));
            assert(attributes@ =~= self.attributes@.take(i + 1));
            i += 1;
        }
        assert(self.attributes@.take(self.attributes@.len() as int) == self.attributes@);
        let mut children: Vec<Node> = Vec::new();
        let mut j: usize = 0;
        while j < self.children.len()
            invariant
                j <= self.children.len(),
                nodes_view(children@) == nodes_view(self.children@.take(j as int)),
            decreases self.children.len() - j,
        {
            let child = self.children[j].cloned();
            proof {
                lemma_nodes_view_push(children@, child);
                lemma_nodes_view_take(self.children@, j as int);
            }
            children.push(child);
            j += 1;
        }
        assert(self.children@.take(self.children@.len() as int) == self.children@);
        Element {
            prefix: copy_optional(&self.prefix),
            namespace: copy_optional(&self.namespace),
            name: self.name.clone(),
            attributes,
            children,
        }
    }

    /// The value of the attribute `name`, if the element has one.
    pub fn attribute(&self, name: &str) -> (r: Option<&String>)
        ensures
            match r {
                Some(value) => self@.attribute(name@) == Some(value@),
                None => self@.attribute(name@) is None,
            },
    {
        get(&self.attributes, name)
    }

    /// The character data directly inside the element, joined in document order; `None`
    /// where the element holds none.
    pub fn get_text(&self) -> (r: Option<String>)
        ensures
            optional_text(r) == self@.text(),
    {
        let mut text = String::new();
        let mut found = false;
        let mut i: usize = 0;
        let ghost views = nodes_view(self.children@);
        proof {
            lemma_nodes_view(self.children@);
        }
        while i < self.children.len()
            invariant
                i <= self.children.len(),
                views == nodes_view(self.children@),
                views.len() == self.children.len(),
                forall|j: int| 0 <= j < views.len() ==> (#[trigger] views[j]) == self.children[j]@,
                text@ == text_of(views.take(i as int)),
                found == has_text(views.take(i as int)),
            decreases self.children.len() - i,
        {
            let ghost seen = views.take(i as int);
            let ghost next = views.take(i + 1);
            assert(next.drop_last() == seen);
            assert(next.last() == views[i as int]);
            match &self.children[i] {
                Node::Text(t) => {
                    text.append(t.as_str());
                    found = true;
                    assert(is_character_data(next[i as int]));
                },
                Node::CData(t) => {
                    text.append(t.as_str());
                    found = true;
                    assert(is_character_data(next[i as int]));
                },
                _ => {
                    assert(text@ =~= text_of(next));
                    assert(found == has_text(next)) by {
                        if has_text(next) {
                            let k = choose|k: int|
                                0 <= k < next.len() && is_character_data(#[trigger] next[k]);
                            assert(is_character_data(seen[k]));
                        }
                        if has_text(seen) {
                            let k = choose|k: int|
                                0 <= k < seen.len() && is_character_data(#[trigger] seen[k]);
                            assert(is_character_data(next[k]));
                        }
                    }
                },
            }
            i += 1;
        }
        assert(views.take(views.len() as int) == views);
        if found {
            Some(text)
        } else {
            None
        }
    }

    /// Walks down to the element that `path` leads to, giving up the rest of the tree.
    pub fn descend(self, path: &[&str]) -> (r: Result<Element, Error>)
        ensures
            view_result(r) == self@.descend(slices(path@)),
        decreases path.len(),
    {
        if path.len() == 0 {
            return Ok(self);
        }
        let ghost whole = self@;
        let Element { prefix: _, namespace: _, name: _, attributes: _, children } = self;
        let mut children = children;
        let at = find_named(&children, path[0]);
        proof {
            lemma_nodes_view(children@);
        }
        assert(slices(path@)[0] == path@[0]@);
        if at < children.len() {
            let child = into_element(children.remove(at));
            let rest = vstd::slice::slice_subrange(path, 1, path.len());
            assert(slices(rest@) =~= slices(path@).drop_first());
            assert(whole.children[at as int] == NodeView::Element(child@)) by {
                lemma_element_node_view(child);
            }
            match child.descend(rest) {
                Ok(found) => Ok(found),
                Err(Error::NotFoundAtPath { path: trace }) => {
                    let mut trace = trace;
                    let ghost inner = trace@;
                    trace.insert(0, path[0].to_owned());
                    assert(texts(trace@) =~= seq![path@[0]@] + texts(inner));
                    Err(Error::NotFoundAtPath { path: trace })
                },
                Err(other) => Err(other),
            }
        } else {
            let mut trace: Vec<String> = Vec::new();
            trace.push(path[0].to_owned());
            assert(texts(trace@) =~= seq![path@[0]@]);
            Err(Error::NotFoundAtPath { path: trace })
        }
    }

    /// Gives the first child element, and gives up the rest of the tree.
    pub fn descend_first(self) -> (r: Result<Element, Error>)
        ensures
            view_result(r) == self@.descend_first(),
    {
        let ghost whole = self@;
        let Element { prefix: _, namespace: _, name, attributes: _, children } = self;
        let mut children = children;
        let at = find_element(&children);
        proof {
            lemma_nodes_view(children@);
        }
        if at < children.len() {
            let child = into_element(children.remove(at));
            assert(whole.children[at as int] == NodeView::Element(child@)) by {
                lemma_element_node_view(child);
            }
            Ok(child)
        } else {
            Err(Error::ExpectedNotEmpty { parent: name })
        }
    }

    /// A deep copy of the element that `path` leads to.
    pub fn get_at_path(&self, path: &[&str]) -> (r: Result<Element, Error>)
        ensures
            view_result(r) == self@.descend(slices(path@)),
        decreases path.len(),
    {
        if path.len() == 0 {
            return Ok(self.cloned());
        }
        let at = find_named(&self.children, path[0]);
        proof {
            lemma_nodes_view(self.children@);
        }
        assert(slices(path@)[0] == path@[0]@);
        if at < self.children.len() {
            let rest = vstd::slice::slice_subrange(path, 1, path.len());
            assert(slices(rest@) =~= slices(path@).drop_first());
            let found = match &self.children[at] {
                Node::Element(child) => child.get_at_path(rest),
                _ => Err(Error::Empty),
            };
            match found {
                Ok(found) => Ok(found),
                Err(Error::NotFoundAtPath { path: trace }) => {
                    let mut trace = trace;
                    let ghost inner = trace@;
                    trace.insert(0, path[0].to_owned());
                    assert(texts(trace@) =~= seq![path@[0]@] + texts(inner));
                    Err(Error::NotFoundAtPath { path: trace })
                },
                Err(other) => Err(other),
            }
        } else {
            let mut trace: Vec<String> = Vec::new();
            trace.push(path[0].to_owned());
            assert(texts(trace@) =~= seq![path@[0]@]);
            Err(Error::NotFoundAtPath { path: trace })
        }
    }

    /// The text of the element, given that its `type` attribute ends with `xsd`.
    fn typed_text(&self, xsd: &str) -> (r: Result<String, Error>)
        ensures
            view_result(r) == self@.typed_text(xsd@),
    {
        let given = self.attribute("type");
        let text = self.get_text();
        let fits = match given {
            Some(stated) => ends_with(stated.as_str(), xsd),
            None => false,
        };
        match text {
            Some(text) if fits => Ok(text),
            _ => Err(
                Error::ExpectedElementWithType {
                    name: self.name.clone(),
                    expected_type: String::from_str("*:").concat(xsd),
                    given: match given {
                        Some(stated) => Some(stated.clone()),
                        None => None,
                    },
                },
            ),
        }
    }

    /// Reads the text of the element as an `int`.
    pub fn as_int(&self) -> (r: Result<i32, Error>)
        ensures
            view_error(r) == self@.as_int(),
    {
        match self.typed_text("int") {
            Ok(text) => match parse_i32(text.as_str()) {
                Some(n) => Ok(n),
                None => Err(Error::ParseIntError { name: self.name.clone() }),
            },
            Err(e) => Err(e),
        }
    }

    /// Reads the text of the element as a `long`.
    pub fn as_long(&self) -> (r: Result<i64, Error>)
        ensures
            view_error(r) == self@.as_long(),
    {
        match self.typed_text("long") {
            Ok(text) => match parse_i64(text.as_str()) {
                Some(n) => Ok(n),
                None => Err(Error::ParseIntError { name: self.name.clone() }),
            },
            Err(e) => Err(e),
        }
    }

    /// Reads the text of the element as a `boolean`: whether it is `true`.
    pub fn as_boolean(&self) -> (r: Result<bool, Error>)
        ensures
            view_error(r) == self@.as_boolean(),
    {
        match self.typed_text("boolean") {
            Ok(text) => Ok(same_text(text.as_str(), "true")),
            Err(e) => Err(e),
        }
    }

    /// Reads the text of the element as a `string`.
    pub fn as_string(&self) -> (r: Result<String, Error>)
        ensures
            view_result(r) == self@.as_string(),
    {
        self.typed_text("string")
    }

    /// Reads the text of the element as a `dateTime`.
    pub fn as_datetime(&self) -> (r: Result<Instant, Error>)
        ensures
            view_error(r) == self@.as_datetime(),
    {
        match self.typed_text("dateTime") {
            Ok(text) => match parse_instant(text.as_str()) {
                Ok(instant) => Ok(instant),
                Err(inner) => Err(Error::ParseDateTimeError { name: self.name.clone(), inner }),
            },
            Err(e) => Err(e),
        }
    }
}

} // verus!
