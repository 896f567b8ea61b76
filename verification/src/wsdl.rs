//! WSDL inspection: the service model that a WSDL 1.1 document describes.

use vstd::prelude::*;
use vstd::string::StrSliceExecFns;

use crate::entries::{
    distinct_keys, entries_view, insert, key_position, lemma_key_position, lemma_upsert, upsert,
};
use crate::rpser::document::{parse_document, parsed_tree};
use crate::rpser::xml::{
    element_position, is_named, lemma_element_position, lemma_element_position_is,
    lemma_named_position, lemma_named_position_is, lemma_nodes_view, named_position, nodes_view,
    Element, ElementView, Node, NodeView,
};
use crate::text::{chars_of, decimal, optional_text, parse_u32, same_text, texts};
use crate::views::view_result;

verus! {

/// Why a document yields no service model.
#[derive(Debug)]
pub enum WsdlError {
    /// The document cannot be read.
    Parse(ParseFailure),
    /// An element that the model needs is missing.
    ElementNotFound(&'static str),
    /// An attribute that the model needs is missing.
    AttributeNotFound(&'static str),
    /// An element was expected in the first place of its parent.
    NotAnElement,
    /// An element was expected to hold something.
    Empty,
}

/// What cannot be read in a document.
#[derive(Debug)]
pub enum ParseFailure {
    /// The document is no well-formed XML.
    Xml(xmltree::ParseError),
    /// An occurrence bound is neither `unbounded` nor a number; the text is the bound.
    Occurrence(String),
}

/// The service model of a WSDL document.
#[derive(Debug)]
pub struct Wsdl {
    /// The name of the service.
    pub name: String,
    /// The namespace that the operations of the service live in.
    pub target_namespace: String,
    /// The types by name, in the order in which the names first came.
    pub types: Vec<(String, Type)>,
    /// The messages by name, in the order in which the names first came.
    pub messages: Vec<(String, Message)>,
    /// The operations by name, in the order in which the names first came.
    pub operations: Vec<(String, Operation)>,
}

/// The type of a field.
#[derive(Debug, Clone, PartialEq, Eq)]
pub enum SimpleType {
    Boolean,
    String,
    Float,
    Int,
    DateTime,
    /// Another type of the model, by its name.
    Complex(String),
}

/// How often a field may occur.
#[derive(Debug, Clone, Copy, PartialEq, Eq, Structural)]
pub enum Occurence {
    Unbounded,
    Num(u32),
}

/// What a schema says of a field besides its type.
#[derive(Debug, Clone, Copy, Default, PartialEq, Eq)]
pub struct TypeAttribute {
    pub nillable: bool,
    pub min_occurs: Option<Occurence>,
    pub max_occurs: Option<Occurence>,
}

/// A type made of fields. The fields stand by name, in the order of the schema.
#[derive(Debug, Clone, PartialEq, Eq)]
pub struct ComplexType {
    pub fields: Vec<(String, (TypeAttribute, SimpleType))>,
}

/// A named type.
#[derive(Debug, Clone, PartialEq, Eq)]
pub enum Type {
    Simple(SimpleType),
    Complex(ComplexType),
}

/// A message: the one part that it wraps.
#[derive(Debug, Clone, PartialEq, Eq)]
pub struct Message {
    pub part_name: String,
    /// The name of the type of the part.
    pub part_element: String,
}

/// An operation: the names of the messages that it takes, gives and fails with.
#[derive(Debug, Clone, PartialEq, Eq)]
pub struct Operation {
    pub name: String,
    pub input: Option<String>,
    pub output: Option<String>,
    pub faults: Option<Vec<String>>,
}

/// The type of a field as a mathematical value.
pub enum SimpleTypeView {
    Boolean,
    String,
    Float,
    Int,
    DateTime,
    Complex(Seq<char>),
}

/// A type made of fields as a mathematical value.
pub struct ComplexTypeView {
    pub fields: Seq<(Seq<char>, (TypeAttribute, SimpleTypeView))>,
}

/// A named type as a mathematical value.
pub enum TypeView {
    Simple(SimpleTypeView),
    Complex(ComplexTypeView),
}

/// A message as a mathematical value.
pub struct MessageView {
    pub part_name: Seq<char>,
    pub part_element: Seq<char>,
}

/// An operation as a mathematical value.
pub struct OperationView {
    pub name: Seq<char>,
    pub input: Option<Seq<char>>,
    pub output: Option<Seq<char>>,
    pub faults: Option<Seq<Seq<char>>>,
}

/// A service model as a mathematical value.
pub struct WsdlView {
    pub name: Seq<char>,
    pub target_namespace: Seq<char>,
    pub types: Seq<(Seq<char>, TypeView)>,
    pub messages: Seq<(Seq<char>, MessageView)>,
    pub operations: Seq<(Seq<char>, OperationView)>,
}

/// The reason why a document yields no service model, as a mathematical value.
pub enum WsdlErrorView {
    ParseXml,
    ParseOccurrence(Seq<char>),
    ElementNotFound(Seq<char>),
    AttributeNotFound(Seq<char>),
    NotAnElement,
    Empty,
}

impl View for SimpleType {
    type V = SimpleTypeView;

    open spec fn view(&self) -> SimpleTypeView {
        match self {
            SimpleType::Boolean => SimpleTypeView::Boolean,
            SimpleType::String => SimpleTypeView::String,
            SimpleType::Float => SimpleTypeView::Float,
            SimpleType::Int => SimpleTypeView::Int,
            SimpleType::DateTime => SimpleTypeView::DateTime,
            SimpleType::Complex(name) => SimpleTypeView::Complex(name@),
        }
    }
}

impl View for TypeAttribute {
    type V = TypeAttribute;

    open spec fn view(&self) -> TypeAttribute {
        *self
    }
}

impl View for ComplexType {
    type V = ComplexTypeView;

    open spec fn view(&self) -> ComplexTypeView {
        ComplexTypeView { fields: entries_view(self.fields@) }
    }
}

impl View for Type {
    type V = TypeView;

    open spec fn view(&self) -> TypeView {
        match self {
            Type::Simple(simple) => TypeView::Simple(simple@),
            Type::Complex(complex) => TypeView::Complex(complex@),
        }
    }
}

impl View for Message {
    type V = MessageView;

    open spec fn view(&self) -> MessageView {
        MessageView { part_name: self.part_name@, part_element: self.part_element@ }
    }
}

impl View for Operation {
    type V = OperationView;

    open spec fn view(&self) -> OperationView {
        OperationView {
            name: self.name@,
            input: optional_text(self.input),
            output: optional_text(self.output),
            faults: match self.faults {
                Some(faults) => Some(texts(faults@)),
                None => None,
            },
        }
    }
}

impl View for Wsdl {
    type V = WsdlView;

    open spec fn view(&self) -> WsdlView {
        WsdlView {
            name: self.name@,
            target_namespace: self.target_namespace@,
            types: entries_view(self.types@),
            messages: entries_view(self.messages@),
            operations: entries_view(self.operations@),
        }
    }
}

impl View for WsdlError {
    type V = WsdlErrorView;

    open spec fn view(&self) -> WsdlErrorView {
        match self {
            WsdlError::Parse(ParseFailure::Xml(_)) => WsdlErrorView::ParseXml,
            WsdlError::Parse(ParseFailure::Occurrence(bound)) => WsdlErrorView::ParseOccurrence(
                bound@,
            ),
            WsdlError::ElementNotFound(name) => WsdlErrorView::ElementNotFound(name@),
            WsdlError::AttributeNotFound(name) => WsdlErrorView::AttributeNotFound(name@),
            WsdlError::NotAnElement => WsdlErrorView::NotAnElement,
            WsdlError::Empty => WsdlErrorView::Empty,
        }
    }
}

impl WsdlView {
    /// Whether no two types, no two messages and no two operations have the same name, and
    /// in no type two fields.
    pub open spec fn well_formed(self) -> bool {
        &&& distinct_keys(self.types)
        &&& distinct_keys(self.messages)
        &&& distinct_keys(self.operations)
        &&& fields_apart(self.types)
    }
}

/// Position of the first `:` in `name`, or the length of `name` where it holds none.
pub open spec fn colon_position(name: Seq<char>) -> int
    decreases name.len(),
{
    if name.len() == 0 || name[0] == ':' {
        0
    } else {
        1 + colon_position(name.drop_first())
    }
}

/// A qualified name without its prefix: what follows the first `:`, or all of the name
/// where it holds none.
pub open spec fn local_name(name: Seq<char>) -> Seq<char> {
    if colon_position(name) < name.len() {
        name.skip(colon_position(name) + 1)
    } else {
        name
    }
}

/// The type that a schema calls by the unqualified name `local`.
pub open spec fn simple_type_of(local: Seq<char>) -> SimpleTypeView {
    if local == "boolean"@ {
        SimpleTypeView::Boolean
    } else if local == "string"@ {
        SimpleTypeView::String
    } else if local == "int"@ {
        SimpleTypeView::Int
    } else if local == "float"@ {
        SimpleTypeView::Float
    } else if local == "dateTime"@ {
        SimpleTypeView::DateTime
    } else {
        SimpleTypeView::Complex(local)
    }
}

/// The bound that an occurrence attribute states: `unbounded`, or a number in decimal.
pub open spec fn occurrence_of(bound: Option<Seq<char>>) -> Result<
    Option<Occurence>,
    WsdlErrorView,
> {
    match bound {
        None => Ok(None),
        Some(text) => if text == "unbounded"@ {
            Ok(Some(Occurence::Unbounded))
        } else {
            match decimal(text, 0, u32::MAX as int) {
                Some(n) => Ok(Some(Occurence::Num(n as u32))),
                None => Err(WsdlErrorView::ParseOccurrence(text)),
            }
        },
    }
}

/// The elements among the nodes, in document order.
pub open spec fn child_elements(nodes: Seq<NodeView>) -> Seq<ElementView>
    decreases nodes.len(),
{
    if nodes.len() == 0 {
        Seq::empty()
    } else if nodes.last() is Element {
        child_elements(nodes.drop_last()).push(nodes.last()->Element_0)
    } else {
        child_elements(nodes.drop_last())
    }
}

/// The elements called `name` among the nodes, in document order.
pub open spec fn named_elements(nodes: Seq<NodeView>, name: Seq<char>) -> Seq<ElementView>
    decreases nodes.len(),
{
    if nodes.len() == 0 {
        Seq::empty()
    } else if nodes.last() is Element && nodes.last()->Element_0.name == name {
        named_elements(nodes.drop_last(), name).push(nodes.last()->Element_0)
    } else {
        named_elements(nodes.drop_last(), name)
    }
}

/// The first child element called `name`.
pub open spec fn named_child(element: ElementView, name: Seq<char>) -> Option<ElementView> {
    let at = named_position(element.children, name);
    if at < element.children.len() {
        Some(element.children[at]->Element_0)
    } else {
        None
    }
}

/// The first child element, past any other nodes.
pub open spec fn first_element(element: ElementView) -> Option<ElementView> {
    let at = element_position(element.children);
    if at < element.children.len() {
        Some(element.children[at]->Element_0)
    } else {
        None
    }
}

/// The first child node, which is to be an element.
pub open spec fn leading_element(element: ElementView) -> Result<ElementView, WsdlErrorView> {
    if element.children.len() == 0 {
        Err(WsdlErrorView::Empty)
    } else if element.children[0] is Element {
        Ok(element.children[0]->Element_0)
    } else {
        Err(WsdlErrorView::NotAnElement)
    }
}

/// The field that an element of a schema sequence declares: its `name`, its `type` without
/// prefix, whether `nillable` is `true`, and the bounds `minOccurs` and `maxOccurs`.
pub open spec fn read_field(field: ElementView) -> Result<
    (Seq<char>, (TypeAttribute, SimpleTypeView)),
    WsdlErrorView,
> {
    if field.attribute("name"@) is None {
        Err(WsdlErrorView::AttributeNotFound("name"@))
    } else if field.attribute("type"@) is None {
        Err(WsdlErrorView::AttributeNotFound("type"@))
    } else {
        match occurrence_of(field.attribute("minOccurs"@)) {
            Err(error) => Err(error),
            Ok(min_occurs) => match occurrence_of(field.attribute("maxOccurs"@)) {
                Err(error) => Err(error),
                Ok(max_occurs) => Ok(
                    (
                        field.attribute("name"@)->0,
                        (
                            TypeAttribute {
                                nillable: field.attribute("nillable"@) == Some("true"@),
                                min_occurs,
                                max_occurs,
                            },
                            simple_type_of(local_name(field.attribute("type"@)->0)),
                        ),
                    ),
                ),
            },
        }
    }
}

/// The fields that the elements from `from` on declare, added to `fields` in their order;
/// the first element that declares none decides the error.
pub open spec fn read_fields_from(
    elements: Seq<ElementView>,
    from: int,
    fields: Seq<(Seq<char>, (TypeAttribute, SimpleTypeView))>,
) -> Result<Seq<(Seq<char>, (TypeAttribute, SimpleTypeView))>, WsdlErrorView>
    decreases elements.len() - from,
{
    if from < 0 || from >= elements.len() {
        Ok(fields)
    } else {
        match read_field(elements[from]) {
            Err(error) => Err(error),
            Ok((name, field)) => read_fields_from(elements, from + 1, upsert(fields, name, field)),
        }
    }
}

/// The type that a top-level element of a schema declares: a `complexType` itself, or an
/// element whose first node is one. The fields are the child elements of the first node of
/// the `complexType`.
pub open spec fn read_type(element: ElementView) -> Result<(Seq<char>, TypeView), WsdlErrorView> {
    if element.attribute("name"@) is None {
        Err(WsdlErrorView::AttributeNotFound("name"@))
    } else {
        let complex = if element.name == "complexType"@ {
            Ok(element)
        } else {
            leading_element(element)
        };
        match complex {
            Err(error) => Err(error),
            Ok(complex) => if complex.name != "complexType"@ {
                Err(WsdlErrorView::ElementNotFound("complexType"@))
            } else {
                match leading_element(complex) {
                    Err(error) => Err(error),
                    Ok(sequence) => match read_fields_from(
                        child_elements(sequence.children),
                        0,
                        Seq::empty(),
                    ) {
                        Err(error) => Err(error),
                        Ok(fields) => Ok(
                            (
                                element.attribute("name"@)->0,
                                TypeView::Complex(ComplexTypeView { fields }),
                            ),
                        ),
                    },
                }
            },
        }
    }
}

/// The types that the elements from `from` on declare, added to `types` in their order.
pub open spec fn read_types_from(
    elements: Seq<ElementView>,
    from: int,
    types: Seq<(Seq<char>, TypeView)>,
) -> Result<Seq<(Seq<char>, TypeView)>, WsdlErrorView>
    decreases elements.len() - from,
{
    if from < 0 || from >= elements.len() {
        Ok(types)
    } else {
        match read_type(elements[from]) {
            Err(error) => Err(error),
            Ok((name, declared)) => read_types_from(
                elements,
                from + 1,
                upsert(types, name, declared),
            ),
        }
    }
}

/// The message that a `message` element declares: its `name`, and of its first child
/// element the `name` and the `element` without prefix.
pub open spec fn read_message(element: ElementView) -> Result<
    (Seq<char>, MessageView),
    WsdlErrorView,
> {
    if element.attribute("name"@) is None {
        Err(WsdlErrorView::AttributeNotFound("name"@))
    } else {
        match first_element(element) {
            None => Err(WsdlErrorView::Empty),
            Some(part) => if part.attribute("name"@) is None {
                Err(WsdlErrorView::AttributeNotFound("name"@))
            } else if part.attribute("element"@) is None {
                Err(WsdlErrorView::AttributeNotFound("element"@))
            } else {
                Ok(
                    (
                        element.attribute("name"@)->0,
                        MessageView {
                            part_name: part.attribute("name"@)->0,
                            part_element: local_name(part.attribute("element"@)->0),
                        },
                    ),
                )
            },
        }
    }
}

/// The messages that the elements from `from` on declare, added to `messages` in their
/// order.
pub open spec fn read_messages_from(
    elements: Seq<ElementView>,
    from: int,
    messages: Seq<(Seq<char>, MessageView)>,
) -> Result<Seq<(Seq<char>, MessageView)>, WsdlErrorView>
    decreases elements.len() - from,
{
    if from < 0 || from >= elements.len() {
        Ok(messages)
    } else {
        match read_message(elements[from]) {
            Err(error) => Err(error),
            Ok((name, message)) => read_messages_from(
                elements,
                from + 1,
                upsert(messages, name, message),
            ),
        }
    }
}

/// An operation after one more of its members: an `input` or an `output` replaces the one
/// before it, a `fault` joins the faults before it. The `message` of the member is taken
/// without prefix.
pub open spec fn with_member(operation: OperationView, member: ElementView) -> Result<
    OperationView,
    WsdlErrorView,
> {
    match member.attribute("message"@) {
        None => Err(WsdlErrorView::AttributeNotFound("message"@)),
        Some(message) => if member.name == "input"@ {
            Ok(OperationView { input: Some(local_name(message)), ..operation })
        } else if member.name == "output"@ {
            Ok(OperationView { output: Some(local_name(message)), ..operation })
        } else if member.name == "fault"@ {
            Ok(
                OperationView {
                    faults: Some(
                        match operation.faults {
                            Some(faults) => faults.push(local_name(message)),
                            None => seq![local_name(message)],
                        },
                    ),
                    ..operation
                },
            )
        } else {
            Err(WsdlErrorView::ElementNotFound("operation member"@))
        },
    }
}

/// An operation after the members from `from` on.
pub open spec fn with_members_from(
    operation: OperationView,
    members: Seq<ElementView>,
    from: int,
) -> Result<OperationView, WsdlErrorView>
    decreases members.len() - from,
{
    if from < 0 || from >= members.len() {
        Ok(operation)
    } else {
        match with_member(operation, members[from]) {
            Err(error) => Err(error),
            Ok(next) => with_members_from(next, members, from + 1),
        }
    }
}

/// The operation that an `operation` element declares: its `name`, and what its child
/// elements say of its messages.
pub open spec fn read_operation(element: ElementView) -> Result<
    (Seq<char>, OperationView),
    WsdlErrorView,
> {
    match element.attribute("name"@) {
        None => Err(WsdlErrorView::AttributeNotFound("name"@)),
        Some(name) => match with_members_from(
            OperationView { name, input: None, output: None, faults: None },
            child_elements(element.children),
            0,
        ) {
            Err(error) => Err(error),
            Ok(operation) => Ok((name, operation)),
        },
    }
}

/// The operations that the elements from `from` on declare, added to `operations` in their
/// order.
pub open spec fn read_operations_from(
    elements: Seq<ElementView>,
    from: int,
    operations: Seq<(Seq<char>, OperationView)>,
) -> Result<Seq<(Seq<char>, OperationView)>, WsdlErrorView>
    decreases elements.len() - from,
{
    if from < 0 || from >= elements.len() {
        Ok(operations)
    } else {
        match read_operation(elements[from]) {
            Err(error) => Err(error),
            Ok((name, operation)) => read_operations_from(
                elements,
                from + 1,
                upsert(operations, name, operation),
            ),
        }
    }
}

/// The types of a document: what the child elements of the first child element of its
/// `types` declare.
pub open spec fn read_types(root: ElementView) -> Result<Seq<(Seq<char>, TypeView)>, WsdlErrorView> {
    match named_child(root, "types"@) {
        None => Err(WsdlErrorView::ElementNotFound("types"@)),
        Some(types) => match first_element(types) {
            None => Err(WsdlErrorView::Empty),
            Some(schema) => read_types_from(child_elements(schema.children), 0, Seq::empty()),
        },
    }
}

/// The operations of a document: what the `operation` elements of its `portType` declare.
pub open spec fn read_operations(root: ElementView) -> Result<
    Seq<(Seq<char>, OperationView)>,
    WsdlErrorView,
> {
    match named_child(root, "portType"@) {
        None => Err(WsdlErrorView::ElementNotFound("portType"@)),
        Some(port_type) => read_operations_from(
            named_elements(port_type.children, "operation"@),
            0,
            Seq::empty(),
        ),
    }
}

/// The name of the service of a document: the `name` of its `service`.
pub open spec fn read_service_name(root: ElementView) -> Result<Seq<char>, WsdlErrorView> {
    match named_child(root, "service"@) {
        None => Err(WsdlErrorView::ElementNotFound("service"@)),
        Some(service) => match service.attribute("name"@) {
            None => Err(WsdlErrorView::AttributeNotFound("name"@)),
            Some(name) => Ok(name),
        },
    }
}

/// The service model that the document with the root `root` describes: its types, its
/// messages, the operations of its port type, the name of its service and its target
/// namespace. Where several things are wrong, the first in this order decides the error.
pub open spec fn read_service(root: ElementView) -> Result<WsdlView, WsdlErrorView> {
    match read_types(root) {
        Err(error) => Err(error),
        Ok(types) => match read_messages_from(
            named_elements(root.children, "message"@),
            0,
            Seq::empty(),
        ) {
            Err(error) => Err(error),
            Ok(messages) => match read_operations(root) {
                Err(error) => Err(error),
                Ok(operations) => match read_service_name(root) {
                    Err(error) => Err(error),
                    Ok(name) => match root.attribute("targetNamespace"@) {
                        None => Err(WsdlErrorView::AttributeNotFound("targetNamespace"@)),
                        Some(target_namespace) => Ok(
                            WsdlView { name, target_namespace, types, messages, operations },
                        ),
                    },
                },
            },
        },
    }
}

/// The service model of a document, given what the XML parser made of it.
pub open spec fn read_document(parsed: Option<ElementView>) -> Result<WsdlView, WsdlErrorView> {
    match parsed {
        Some(root) => read_service(root),
        None => Err(WsdlErrorView::ParseXml),
    }
}

/// Whether no complex type among the types has two fields of the same name.
pub open spec fn fields_apart(types: Seq<(Seq<char>, TypeView)>) -> bool {
    forall|i: int|
        0 <= i < types.len() ==> match (#[trigger] types[i]).1 {
            TypeView::Complex(complex) => distinct_keys(complex.fields),
            TypeView::Simple(_) => true,
        }
}

/// Fields that are read keep their names distinct.
proof fn lemma_read_fields_distinct(
    elements: Seq<ElementView>,
    from: int,
    fields: Seq<(Seq<char>, (TypeAttribute, SimpleTypeView))>,
)
    requires
        0 <= from,
        distinct_keys(fields),
    ensures
        read_fields_from(elements, from, fields) matches Ok(read) ==> distinct_keys(read),
    decreases elements.len() - from,
{
    if from < elements.len() {
        match read_field(elements[from]) {
            Ok((name, field)) => {
                lemma_upsert(fields, name, field);
                lemma_read_fields_distinct(elements, from + 1, upsert(fields, name, field));
            },
            Err(_) => {},
        }
    }
}

/// Types that are read keep their names distinct, and the names of the fields of each.
proof fn lemma_read_types_distinct(
    elements: Seq<ElementView>,
    from: int,
    types: Seq<(Seq<char>, TypeView)>,
)
    requires
        0 <= from,
        distinct_keys(types),
        fields_apart(types),
    ensures
        read_types_from(elements, from, types) matches Ok(read) ==> distinct_keys(read)
            && fields_apart(read),
    decreases elements.len() - from,
{
    if from < elements.len() {
        match read_type(elements[from]) {
            Ok((name, declared)) => {
                let element = elements[from];
                let complex = if element.name == "complexType"@ {
                    element
                } else {
                    leading_element(element)->Ok_0
                };
                let sequence = leading_element(complex)->Ok_0;
                lemma_read_fields_distinct(child_elements(sequence.children), 0, Seq::empty());
                lemma_upsert(types, name, declared);
                let next = upsert(types, name, declared);
                assert forall|i: int| 0 <= i < next.len() implies match (#[trigger] next[i]).1 {
                    TypeView::Complex(complex) => distinct_keys(complex.fields),
                    TypeView::Simple(_) => true,
                } by {
                    lemma_key_position(types, name);
                    if i < types.len() && i != key_position(types, name) {
                        assert(next[i] == types[i]);
                    } else {
                        assert(next[i] == (name, declared));
                    }
                }
                lemma_read_types_distinct(elements, from + 1, next);
            },
            Err(_) => {},
        }
    }
}

/// Messages that are read keep their names distinct.
proof fn lemma_read_messages_distinct(
    elements: Seq<ElementView>,
    from: int,
    messages: Seq<(Seq<char>, MessageView)>,
)
    requires
        0 <= from,
        distinct_keys(messages),
    ensures
        read_messages_from(elements, from, messages) matches Ok(read) ==> distinct_keys(read),
    decreases elements.len() - from,
{
    if from < elements.len() {
        match read_message(elements[from]) {
            Ok((name, message)) => {
                lemma_upsert(messages, name, message);
                lemma_read_messages_distinct(elements, from + 1, upsert(messages, name, message));
            },
            Err(_) => {},
        }
    }
}

/// Operations that are read keep their names distinct.
proof fn lemma_read_operations_distinct(
    elements: Seq<ElementView>,
    from: int,
    operations: Seq<(Seq<char>, OperationView)>,
)
    requires
        0 <= from,
        distinct_keys(operations),
    ensures
        read_operations_from(elements, from, operations) matches Ok(read) ==> distinct_keys(read),
    decreases elements.len() - from,
{
    if from < elements.len() {
        match read_operation(elements[from]) {
            Ok((name, operation)) => {
                lemma_upsert(operations, name, operation);
                lemma_read_operations_distinct(
                    elements,
                    from + 1,
                    upsert(operations, name, operation),
                );
            },
            Err(_) => {},
        }
    }
}

/// The service model of a document is well formed: no name stands twice where names are
/// read as a map.
pub proof fn lemma_read_service_well_formed(root: ElementView)
    ensures
        read_service(root) matches Ok(model) ==> model.well_formed(),
{
    if read_service(root) is Ok {
        let schema = first_element(named_child(root, "types"@)->0)->0;
        lemma_read_types_distinct(child_elements(schema.children), 0, Seq::empty());
        lemma_read_messages_distinct(named_elements(root.children, "message"@), 0, Seq::empty());
        let port_type = named_child(root, "portType"@)->0;
        lemma_read_operations_distinct(
            named_elements(port_type.children, "operation"@),
            0,
            Seq::empty(),
        );
    }
}

/// What `colon_position` finds: the first `:`, or the end.
proof fn lemma_colon_position(name: Seq<char>)
    ensures
        0 <= colon_position(name) <= name.len(),
        colon_position(name) < name.len() ==> name[colon_position(name)] == ':',
        forall|i: int| 0 <= i < colon_position(name) ==> name[i] != ':',
    decreases name.len(),
{
    if name.len() == 0 || name[0] == ':' {
    } else {
        let rest = name.drop_first();
        lemma_colon_position(rest);
        assert forall|i: int| 0 <= i < colon_position(name) implies name[i] != ':' by {
            if i > 0 {
                assert(name[i] == rest[i - 1]);
            }
        }
    }
}

/// A qualified name without its prefix.
pub fn split_namespace(s: &str) -> (r: &str)
    ensures
        r@ == local_name(s@),
{
    let chars = chars_of(s);
    let mut i: usize = 0;
    while i < chars.len() && chars[i] != ':'
        invariant
            i <= chars.len(),
            forall|j: int| 0 <= j < i ==> chars@[j] != ':',
        decreases chars.len() - i,
    {
        i += 1;
    }
    proof {
        lemma_colon_position(s@);
    }
    if i < chars.len() {
        s.substring_char(i + 1, chars.len())
    } else {
        s
    }
}

/// The views of the elements that a list refers to.
pub open spec fn referred(elements: Seq<&Element>) -> Seq<ElementView> {
    Seq::new(elements.len(), |i: int| elements[i]@)
}

/// The child elements of an element, in document order.
fn elements_of(element: &Element) -> (r: Vec<&Element>)
    ensures
        referred(r@) == child_elements(element@.children),
{
    let mut found: Vec<&Element> = Vec::new();
    let ghost views = nodes_view(element.children@);
    proof {
        lemma_nodes_view(element.children@);
        assert(referred(found@) =~= child_elements(views.take(0)));
    }
    let mut i: usize = 0;
    while i < element.children.len()
        invariant
            i <= element.children.len(),
            views == nodes_view(element.children@),
            views.len() == element.children.len(),
            forall|j: int| 0 <= j < views.len() ==> (#[trigger] views[j]) == element.children[j]@,
            referred(found@) == child_elements(views.take(i as int)),
        decreases element.children.len() - i,
    {
        proof {
            assert(views.take(i + 1).drop_last() == views.take(i as int));
            assert(views.take(i + 1).last() == views[i as int]);
        }
        match &element.children[i] {
            Node::Element(child) => {
                found.push(child);
                assert(referred(found@) =~= child_elements(views.take(i as int)).push(child@));
            },
            _ => {},
        }
        i += 1;
    }
    assert(views.take(views.len() as int) == views);
    found
}

/// The child elements of an element that are called `name`, in document order.
fn elements_named<'a>(element: &'a Element, name: &str) -> (r: Vec<&'a Element>)
    ensures
        referred(r@) == named_elements(element@.children, name@),
{
    let wanted = name.to_owned();
    let mut found: Vec<&Element> = Vec::new();
    let ghost views = nodes_view(element.children@);
    proof {
        lemma_nodes_view(element.children@);
        assert(referred(found@) =~= named_elements(views.take(0), name@));
    }
    let mut i: usize = 0;
    while i < element.children.len()
        invariant
            i <= element.children.len(),
            wanted@ == name@,
            views == nodes_view(element.children@),
            views.len() == element.children.len(),
            forall|j: int| 0 <= j < views.len() ==> (#[trigger] views[j]) == element.children[j]@,
            referred(found@) == named_elements(views.take(i as int), name@),
        decreases element.children.len() - i,
    {
        proof {
            assert(views.take(i + 1).drop_last() == views.take(i as int));
            assert(views.take(i + 1).last() == views[i as int]);
        }
        match &element.children[i] {
            Node::Element(child) => {
                if child.name == wanted {
                    found.push(child);
                    assert(referred(found@) =~= named_elements(views.take(i as int), name@).push(
                        child@,
                    ));
                }
            },
            _ => {},
        }
        i += 1;
    }
    assert(views.take(views.len() as int) == views);
    found
}

/// The first child element called `name`.
fn child_named<'a>(element: &'a Element, name: &str) -> (r: Option<&'a Element>)
    ensures
        match r {
            Some(child) => named_child(element@, name@) == Some(child@),
            None => named_child(element@, name@) is None,
        },
{
    let found = elements_named(element, name);
    proof {
        lemma_named_elements(element@.children, name@);
    }
    if found.len() > 0 {
        assert(referred(found@)[0] == found@[0]@);
        Some(found[0])
    } else {
        None
    }
}

/// The first child element, past any other nodes.
fn first_child(element: &Element) -> (r: Option<&Element>)
    ensures
        match r {
            Some(child) => first_element(element@) == Some(child@),
            None => first_element(element@) is None,
        },
{
    let found = elements_of(element);
    proof {
        lemma_child_elements(element@.children);
    }
    if found.len() > 0 {
        assert(referred(found@)[0] == found@[0]@);
        Some(found[0])
    } else {
        None
    }
}

/// The first of the elements called `name` is the one at `named_position`.
proof fn lemma_named_elements(nodes: Seq<NodeView>, name: Seq<char>)
    ensures
        named_position(nodes, name) < nodes.len() <==> named_elements(nodes, name).len() > 0,
        named_elements(nodes, name).len() > 0 ==> named_elements(nodes, name)[0]
            == nodes[named_position(nodes, name)]->Element_0,
    decreases nodes.len(),
{
    lemma_named_position(nodes, name);
    if nodes.len() > 0 {
        let front = nodes.drop_last();
        lemma_named_elements(front, name);
        lemma_named_position(front, name);
        let at = named_position(front, name);
        if at < front.len() {
            assert(front[at] == nodes[at]);
            assert forall|i: int| 0 <= i < at implies !is_named(
                #[trigger] nodes[i],
                name,
            ) by {
                assert(front[i] == nodes[i]);
            }
            lemma_named_position_is(nodes, name, at);
        } else {
            assert forall|i: int| 0 <= i < front.len() implies !is_named(
                #[trigger] nodes[i],
                name,
            ) by {
                assert(front[i] == nodes[i]);
            }
            if is_named(nodes.last(), name) {
                lemma_named_position_is(nodes, name, nodes.len() - 1);
            } else {
                lemma_named_position_is(nodes, name, nodes.len() as int);
            }
        }
    }
}

/// The first of the child elements is the one at `element_position`.
proof fn lemma_child_elements(nodes: Seq<NodeView>)
    ensures
        element_position(nodes) < nodes.len() <==> child_elements(nodes).len() > 0,
        child_elements(nodes).len() > 0 ==> child_elements(nodes)[0] == nodes[element_position(
            nodes,
        )]->Element_0,
    decreases nodes.len(),
{
    lemma_element_position(nodes);
    if nodes.len() > 0 {
        let front = nodes.drop_last();
        lemma_child_elements(front);
        lemma_element_position(front);
        let at = element_position(front);
        if at < front.len() {
            assert(front[at] == nodes[at]);
            assert forall|i: int| 0 <= i < at implies !((#[trigger] nodes[i]) is Element) by {
                assert(front[i] == nodes[i]);
            }
            lemma_element_position_is(nodes, at);
        } else {
            assert forall|i: int| 0 <= i < front.len() implies !((#[trigger] nodes[i])
                is Element) by {
                assert(front[i] == nodes[i]);
            }
            if nodes.last() is Element {
                lemma_element_position_is(nodes, nodes.len() - 1);
            } else {
                lemma_element_position_is(nodes, nodes.len() as int);
            }
        }
    }
}

/// The first child node, which is to be an element.
fn leading_child(element: &Element) -> (r: Result<&Element, WsdlError>)
    ensures
        match r {
            Ok(child) => leading_element(element@) == Ok::<ElementView, WsdlErrorView>(child@),
            Err(error) => leading_element(element@) == Err::<ElementView, WsdlErrorView>(error@),
        },
{
    proof {
        lemma_nodes_view(element.children@);
    }
    if element.children.len() == 0 {
        return Err(WsdlError::Empty);
    }
    match &element.children[0] {
        Node::Element(child) => Ok(child),
        _ => Err(WsdlError::NotAnElement),
    }
}

/// Reads the bound that an occurrence attribute states.
fn occurrence(bound: Option<&String>) -> (r: Result<Option<Occurence>, WsdlError>)
    ensures
        match r {
            Ok(read) => occurrence_of(
                match bound {
                    Some(text) => Some(text@),
                    None => None,
                },
            ) == Ok::<Option<Occurence>, WsdlErrorView>(read),
            Err(error) => occurrence_of(
                match bound {
                    Some(text) => Some(text@),
                    None => None,
                },
            ) == Err::<Option<Occurence>, WsdlErrorView>(error@),
        },
{
    match bound {
        None => Ok(None),
        Some(text) => {
            if same_text(text.as_str(), "unbounded") {
                Ok(Some(Occurence::Unbounded))
            } else {
                match parse_u32(text.as_str()) {
                    Some(n) => Ok(Some(Occurence::Num(n))),
                    None => Err(WsdlError::Parse(ParseFailure::Occurrence(text.clone()))),
                }
            }
        },
    }
}

/// The type that a schema calls by the unqualified name `local`.
fn simple_type(local: &str) -> (r: SimpleType)
    ensures
        r@ == simple_type_of(local@),
{
    if same_text(local, "boolean") {
        SimpleType::Boolean
    } else if same_text(local, "string") {
        SimpleType::String
    } else if same_text(local, "int") {
        SimpleType::Int
    } else if same_text(local, "float") {
        SimpleType::Float
    } else if same_text(local, "dateTime") {
        SimpleType::DateTime
    } else {
        SimpleType::Complex(local.to_owned())
    }
}

/// Reads the field that an element of a schema sequence declares.
fn field_of(field: &Element) -> (r: Result<(String, (TypeAttribute, SimpleType)), WsdlError>)
    ensures
        view_result(r) == read_field(field@),
{
    let name = match field.attribute("name") {
        Some(name) => name,
        None => {
            return Err(WsdlError::AttributeNotFound("name"));
        },
    };
    let stated = match field.attribute("type") {
        Some(stated) => stated,
        None => {
            return Err(WsdlError::AttributeNotFound("type"));
        },
    };
    let nillable = match field.attribute("nillable") {
        Some(text) => same_text(text.as_str(), "true"),
        None => false,
    };
    let min_occurs = match occurrence(field.attribute("minOccurs")) {
        Ok(bound) => bound,
        Err(error) => {
            return Err(error);
        },
    };
    let max_occurs = match occurrence(field.attribute("maxOccurs")) {
        Ok(bound) => bound,
        Err(error) => {
            return Err(error);
        },
    };
    Ok(
        (
            name.clone(),
            (
                TypeAttribute { nillable, min_occurs, max_occurs },
                simple_type(split_namespace(stated.as_str())),
            ),
        ),
    )
}

/// Reads the type that a top-level element of a schema declares.
#[verifier::loop_isolation(false)]
fn type_of(element: &Element) -> (r: Result<(String, Type), WsdlError>)
    ensures
        view_result(r) == read_type(element@),
{
    let name = match element.attribute("name") {
        Some(name) => name,
        None => {
            return Err(WsdlError::AttributeNotFound("name"));
        },
    };
    let complex = if same_text(element.name.as_str(), "complexType") {
        element
    } else {
        match leading_child(element) {
            Ok(child) => child,
            Err(error) => {
                return Err(error);
            },
        }
    };
    if !same_text(complex.name.as_str(), "complexType") {
        return Err(WsdlError::ElementNotFound("complexType"));
    }
    let sequence = match leading_child(complex) {
        Ok(child) => child,
        Err(error) => {
            return Err(error);
        },
    };
    let declared = elements_of(sequence);
    let mut fields: Vec<(String, (TypeAttribute, SimpleType))> = Vec::new();
    let ghost all = child_elements(sequence@.children);
    assert(entries_view(fields@) =~= Seq::empty());
    let mut i: usize = 0;
    while i < declared.len()
        invariant
            i <= declared.len(),
            referred(declared@) == all,
            read_fields_from(all, 0, Seq::empty()) == read_fields_from(
                all,
                i as int,
                entries_view(fields@),
            ),
        decreases declared.len() - i,
    {
        assert(all[i as int] == declared@[i as int]@);
        match field_of(declared[i]) {
            Ok((field_name, field)) => {
                insert(&mut fields, field_name, field);
            },
            Err(error) => {
                return Err(error);
            },
        }
        i += 1;
    }
    Ok((name.clone(), Type::Complex(ComplexType { fields })))
}

/// Reads the message that a `message` element declares.
fn message_of(element: &Element) -> (r: Result<(String, Message), WsdlError>)
    ensures
        view_result(r) == read_message(element@),
{
    let name = match element.attribute("name") {
        Some(name) => name,
        None => {
            return Err(WsdlError::AttributeNotFound("name"));
        },
    };
    let part = match first_child(element) {
        Some(part) => part,
        None => {
            return Err(WsdlError::Empty);
        },
    };
    let part_name = match part.attribute("name") {
        Some(part_name) => part_name,
        None => {
            return Err(WsdlError::AttributeNotFound("name"));
        },
    };
    let part_element = match part.attribute("element") {
        Some(part_element) => part_element,
        None => {
            return Err(WsdlError::AttributeNotFound("element"));
        },
    };
    Ok(
        (
            name.clone(),
            Message {
                part_name: part_name.clone(),
                part_element: split_namespace(part_element.as_str()).to_owned(),
            },
        ),
    )
}

/// Adds to an operation what one more of its members says.
fn add_member(operation: Operation, member: &Element) -> (r: Result<Operation, WsdlError>)
    ensures
        view_result(r) == with_member(operation@, member@),
{
    let message = match member.attribute("message") {
        Some(message) => split_namespace(message.as_str()).to_owned(),
        None => {
            return Err(WsdlError::AttributeNotFound("message"));
        },
    };
    let Operation { name, input, output, faults } = operation;
    if same_text(member.name.as_str(), "input") {
        Ok(Operation { name, input: Some(message), output, faults })
    } else if same_text(member.name.as_str(), "output") {
        Ok(Operation { name, input, output: Some(message), faults })
    } else if same_text(member.name.as_str(), "fault") {
        let mut list = match faults {
            Some(list) => list,
            None => Vec::new(),
        };
        let ghost before = list@;
        list.push(message);
        assert(texts(list@) =~= texts(before).push(message@));
        assert(faults is None ==> texts(list@) =~= seq![message@]);
        Ok(Operation { name, input, output, faults: Some(list) })
    } else {
        Err(WsdlError::ElementNotFound("operation member"))
    }
}

/// Reads the operation that an `operation` element declares.
#[verifier::loop_isolation(false)]
fn operation_of(element: &Element) -> (r: Result<(String, Operation), WsdlError>)
    ensures
        view_result(r) == read_operation(element@),
{
    let name = match element.attribute("name") {
        Some(name) => name,
        None => {
            return Err(WsdlError::AttributeNotFound("name"));
        },
    };
    let members = elements_of(element);
    let mut operation = Operation { name: name.clone(), input: None, output: None, faults: None };
    let ghost all = child_elements(element@.children);
    let ghost bare = operation@;
    let mut i: usize = 0;
    while i < members.len()
        invariant
            i <= members.len(),
            referred(members@) == all,
            with_members_from(bare, all, 0) == with_members_from(operation@, all, i as int),
        decreases members.len() - i,
    {
        assert(all[i as int] == members@[i as int]@);
        match add_member(operation, members[i]) {
            Ok(next) => {
                operation = next;
            },
            Err(error) => {
                return Err(error);
            },
        }
        i += 1;
    }
    Ok((name.clone(), operation))
}

/// Reads the types of a document.
#[verifier::loop_isolation(false)]
fn types_of(root: &Element) -> (r: Result<Vec<(String, Type)>, WsdlError>)
    ensures
        match r {
            Ok(types) => read_types(root@) == Ok::<_, WsdlErrorView>(entries_view(types@)),
            Err(error) => read_types(root@) == Err::<Seq<(Seq<char>, TypeView)>, _>(error@),
        },
{
    let section = match child_named(root, "types") {
        Some(section) => section,
        None => {
            return Err(WsdlError::ElementNotFound("types"));
        },
    };
    let schema = match first_child(section) {
        Some(schema) => schema,
        None => {
            return Err(WsdlError::Empty);
        },
    };
    let declared = elements_of(schema);
    let mut types: Vec<(String, Type)> = Vec::new();
    let ghost all = child_elements(schema@.children);
    assert(entries_view(types@) =~= Seq::empty());
    let mut i: usize = 0;
    while i < declared.len()
        invariant
            i <= declared.len(),
            referred(declared@) == all,
            read_types_from(all, 0, Seq::empty()) == read_types_from(
                all,
                i as int,
                entries_view(types@),
            ),
        decreases declared.len() - i,
    {
        assert(all[i as int] == declared@[i as int]@);
        match type_of(declared[i]) {
            Ok((name, declared_type)) => {
                insert(&mut types, name, declared_type);
            },
            Err(error) => {
                return Err(error);
            },
        }
        i += 1;
    }
    Ok(types)
}

/// Reads the messages of a document.
#[verifier::loop_isolation(false)]
fn messages_of(root: &Element) -> (r: Result<Vec<(String, Message)>, WsdlError>)
    ensures
        match r {
            Ok(messages) => read_messages_from(
                named_elements(root@.children, "message"@),
                0,
                Seq::empty(),
            ) == Ok::<_, WsdlErrorView>(entries_view(messages@)),
            Err(error) => read_messages_from(
                named_elements(root@.children, "message"@),
                0,
                Seq::empty(),
            ) == Err::<Seq<(Seq<char>, MessageView)>, _>(error@),
        },
{
    let declared = elements_named(root, "message");
    let mut messages: Vec<(String, Message)> = Vec::new();
    let ghost all = named_elements(root@.children, "message"@);
    assert(entries_view(messages@) =~= Seq::empty());
    let mut i: usize = 0;
    while i < declared.len()
        invariant
            i <= declared.len(),
            referred(declared@) == all,
            read_messages_from(all, 0, Seq::empty()) == read_messages_from(
                all,
                i as int,
                entries_view(messages@),
            ),
        decreases declared.len() - i,
    {
        assert(all[i as int] == declared@[i as int]@);
        match message_of(declared[i]) {
            Ok((name, message)) => {
                insert(&mut messages, name, message);
            },
            Err(error) => {
                return Err(error);
            },
        }
        i += 1;
    }
    Ok(messages)
}

/// Reads the operations of a document.
#[verifier::loop_isolation(false)]
fn operations_of(root: &Element) -> (r: Result<Vec<(String, Operation)>, WsdlError>)
    ensures
        match r {
            Ok(operations) => read_operations(root@) == Ok::<_, WsdlErrorView>(
                entries_view(operations@),
            ),
            Err(error) => read_operations(root@) == Err::<Seq<(Seq<char>, OperationView)>, _>(
                error@,
            ),
        },
{
    let port_type = match child_named(root, "portType") {
        Some(port_type) => port_type,
        None => {
            return Err(WsdlError::ElementNotFound("portType"));
        },
    };
    let declared = elements_named(port_type, "operation");
    let mut operations: Vec<(String, Operation)> = Vec::new();
    let ghost all = named_elements(port_type@.children, "operation"@);
    assert(entries_view(operations@) =~= Seq::empty());
    let mut i: usize = 0;
    while i < declared.len()
        invariant
            i <= declared.len(),
            referred(declared@) == all,
            read_operations_from(all, 0, Seq::empty()) == read_operations_from(
                all,
                i as int,
                entries_view(operations@),
            ),
        decreases declared.len() - i,
    {
        assert(all[i as int] == declared@[i as int]@);
        match operation_of(declared[i]) {
            Ok((name, operation)) => {
                insert(&mut operations, name, operation);
            },
            Err(error) => {
                return Err(error);
            },
        }
        i += 1;
    }
    Ok(operations)
}

/// Reads the name of the service of a document.
fn service_name_of(root: &Element) -> (r: Result<String, WsdlError>)
    ensures
        view_result(r) == read_service_name(root@),
{
    let service = match child_named(root, "service") {
        Some(service) => service,
        None => {
            return Err(WsdlError::ElementNotFound("service"));
        },
    };
    match service.attribute("name") {
        Some(name) => Ok(name.clone()),
        None => Err(WsdlError::AttributeNotFound("name")),
    }
}

/// Reads the service model that the document with the root `root` describes.
pub fn read(root: &Element) -> (r: Result<Wsdl, WsdlError>)
    ensures
        view_result(r) == read_service(root@),
        r matches Ok(model) ==> model@.well_formed(),
{
    proof {
        lemma_read_service_well_formed(root@);
    }
    let types = match types_of(root) {
        Ok(types) => types,
        Err(error) => {
            return Err(error);
        },
    };
    let messages = match messages_of(root) {
        Ok(messages) => messages,
        Err(error) => {
            return Err(error);
        },
    };
    let operations = match operations_of(root) {
        Ok(operations) => operations,
        Err(error) => {
            return Err(error);
        },
    };
    let name = match service_name_of(root) {
        Ok(name) => name,
        Err(error) => {
            return Err(error);
        },
    };
    let target_namespace = match root.attribute("targetNamespace") {
        Some(target_namespace) => target_namespace.clone(),
        None => {
            return Err(WsdlError::AttributeNotFound("targetNamespace"));
        },
    };
    Ok(Wsdl { name, target_namespace, types, messages, operations })
}

/// Reads the service model that a WSDL document describes.
pub fn parse(bytes: &[u8]) -> (r: Result<Wsdl, WsdlError>)
    ensures
        view_result(r) == read_document(parsed_tree(bytes@)),
        r matches Ok(model) ==> model@.well_formed(),
{
    match parse_document(bytes) {
        Ok(root) => read(&root),
        Err(error) => Err(WsdlError::Parse(ParseFailure::Xml(error))),
    }
}

} // verus!
