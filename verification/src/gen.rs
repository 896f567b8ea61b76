//! The binding plan of a service model: the records, message wrappers, operations and
//! fault unions that a back-end renders, and what maps a record to XML elements and back.

use vstd::prelude::*;

use crate::entries::{entries_view, get, has_key, lookup};
use crate::naming::{camel_case, snake_case, to_camel, to_snake};
use crate::rpser::xml::Element;
use crate::text::{optional_text, texts};
use crate::views::{each_view, view_result};
use crate::wsdl::{
    ComplexType, ComplexTypeView, Message, MessageView, Operation, OperationView, SimpleType,
    SimpleTypeView, Type, TypeAttribute, TypeView, Wsdl, WsdlView,
};

verus! {

/// A value that writes itself as XML elements.
pub trait ToElements {
    /// The elements that write the value, in their order.
    fn to_elements(&self) -> Vec<Element>;
}

/// A value that is read from an XML element.
pub trait FromElement: Sized {
    /// The value that the element holds, or the reason why it holds none.
    fn from_element(element: &Element) -> Result<Self, crate::Error>;
}

impl<T: ToElements> ToElements for Option<T> {
    /// The elements of the value, as the value writes them; none where there is no value.
    fn to_elements(&self) -> (r: Vec<Element>)
        ensures
            match self {
                Some(value) => call_ensures(T::to_elements, (value,), r),
                None => r@.len() == 0,
            },
    {
        match self {
            Some(value) => value.to_elements(),
            None => Vec::new(),
        }
    }
}

#[verifier::external_type_specification]
#[verifier::external_body]
pub struct ExIoError(std::io::Error);

/// Why a service model has no bindings.
#[derive(Debug)]
pub enum GenError {
    /// The bindings cannot be written out.
    Io(std::io::Error),
    /// A field, a message or an operation names a type or a message that the model lacks.
    UnresolvedReference { name: String },
    /// Two names of the model give the same name in the bindings.
    NameCollision { pair: (String, String) },
}

/// The reason why a service model has no bindings, as a mathematical value.
pub enum GenErrorView {
    Io,
    UnresolvedReference { name: Seq<char> },
    NameCollision { pair: (Seq<char>, Seq<char>) },
}

impl View for GenError {
    type V = GenErrorView;

    open spec fn view(&self) -> GenErrorView {
        match self {
            GenError::Io(_) => GenErrorView::Io,
            GenError::UnresolvedReference { name } => GenErrorView::UnresolvedReference {
                name: name@,
            },
            GenError::NameCollision { pair } => GenErrorView::NameCollision {
                pair: (pair.0@, pair.1@),
            },
        }
    }
}

/// What a field holds, before sequences and options.
#[derive(Debug, PartialEq, Eq)]
pub enum BaseType {
    Boolean,
    Text,
    /// A signed 64-bit integer.
    Integer,
    /// A 64-bit floating-point number.
    Float,
    Instant,
    /// The record of that name.
    Record(String),
}

/// The type of a field in the bindings: the base type, a sequence of it where `sequence`
/// holds, and that optional where `optional` holds.
#[derive(Debug, PartialEq, Eq)]
pub struct FieldType {
    pub base: BaseType,
    pub sequence: bool,
    pub optional: bool,
}

/// A field of a record.
#[derive(Debug, PartialEq, Eq)]
pub struct FieldPlan {
    /// The name of the field in the bindings.
    pub name: String,
    /// The name of the elements that hold the field.
    pub element: String,
    pub field_type: FieldType,
}

/// How a field is written: as elements called `element`, one for the value or one for each
/// item of a sequence, with the value as text or with the elements of a record as children.
#[derive(Debug, PartialEq, Eq)]
pub struct SerializeStep {
    pub field: String,
    pub element: String,
    pub base: BaseType,
    /// Whether the field is a sequence, which gives one element for each item.
    pub each_item: bool,
    /// Whether the field may be absent, which gives no element.
    pub skip_absent: bool,
}

/// Where the elements of a field are found in the element of its record.
#[derive(Debug, Clone, Copy, PartialEq, Eq, Structural)]
pub enum Source {
    /// The first child element that is called as the step says.
    Path,
    /// Every child element, in document order.
    Children,
}

/// How a field is read: from the first child element called `element`, or from every child
/// element for a sequence, each read as text of the base type or as a record.
#[derive(Debug, PartialEq, Eq)]
pub struct DeserializeStep {
    pub field: String,
    pub element: String,
    pub base: BaseType,
    pub source: Source,
    /// Whether a field that is missing or cannot be read is absent, and no error.
    pub absent_on_failure: bool,
}

/// The record of a complex type.
#[derive(Debug, PartialEq, Eq)]
pub struct RecordPlan {
    /// The name of the record in the bindings.
    pub name: String,
    /// The name of the type in the model.
    pub source: String,
    pub fields: Vec<FieldPlan>,
    pub serialize_schedule: Vec<SerializeStep>,
    pub deserialize_schedule: Vec<DeserializeStep>,
}

/// The wrapper of a message: a record of one field, which is the record `inner`.
#[derive(Debug, PartialEq, Eq)]
pub struct WrapperPlan {
    pub name: String,
    pub inner: String,
}

/// How an operation is invoked.
#[derive(Debug, Clone, Copy, PartialEq, Eq, Structural)]
pub enum Shape {
    /// A request without an answer.
    OneWay,
    /// A request and its answer.
    RequestResponse,
    /// A request and its answer, which may be one of the declared faults.
    RequestResponseWithFaults,
    /// Faults without an answer: the operation has no binding.
    Unimplemented,
}

/// The binding of an operation.
#[derive(Debug, PartialEq, Eq)]
pub struct OpPlan {
    /// The name of the method in the bindings.
    pub name: String,
    /// The name of the operation in the model and on the wire.
    pub operation: String,
    /// The wrapper of the request.
    pub input: String,
    /// The wrapper of the answer.
    pub output: Option<String>,
    /// The fault union of the operation.
    pub faults: Option<String>,
    /// The namespace of the operation on the wire.
    pub namespace: String,
    pub shape: Shape,
}

/// The faults that an operation declares: a union with one variant for each fault message.
#[derive(Debug, PartialEq, Eq)]
pub struct FaultUnion {
    pub name: String,
    pub variants: Vec<String>,
}

/// The binding plan of a service model.
#[derive(Debug, PartialEq, Eq)]
pub struct BindingPlan {
    pub service_name: String,
    pub target_namespace: String,
    pub records: Vec<RecordPlan>,
    pub wrappers: Vec<WrapperPlan>,
    pub operations: Vec<OpPlan>,
    pub fault_unions: Vec<FaultUnion>,
}

/// A base type as a mathematical value.
pub enum BaseTypeView {
    Boolean,
    Text,
    Integer,
    Float,
    Instant,
    Record(Seq<char>),
}

/// The type of a field as a mathematical value.
pub struct FieldTypeView {
    pub base: BaseTypeView,
    pub sequence: bool,
    pub optional: bool,
}

/// A field of a record as a mathematical value.
pub struct FieldPlanView {
    pub name: Seq<char>,
    pub element: Seq<char>,
    pub field_type: FieldTypeView,
}

/// A step of a serialize schedule as a mathematical value.
pub struct SerializeStepView {
    pub field: Seq<char>,
    pub element: Seq<char>,
    pub base: BaseTypeView,
    pub each_item: bool,
    pub skip_absent: bool,
}

/// A step of a deserialize schedule as a mathematical value.
pub struct DeserializeStepView {
    pub field: Seq<char>,
    pub element: Seq<char>,
    pub base: BaseTypeView,
    pub source: Source,
    pub absent_on_failure: bool,
}

/// A record as a mathematical value.
pub struct RecordPlanView {
    pub name: Seq<char>,
    pub source: Seq<char>,
    pub fields: Seq<FieldPlanView>,
    pub serialize_schedule: Seq<SerializeStepView>,
    pub deserialize_schedule: Seq<DeserializeStepView>,
}

/// A wrapper as a mathematical value.
pub struct WrapperPlanView {
    pub name: Seq<char>,
    pub inner: Seq<char>,
}

/// The binding of an operation as a mathematical value.
pub struct OpPlanView {
    pub name: Seq<char>,
    pub operation: Seq<char>,
    pub input: Seq<char>,
    pub output: Option<Seq<char>>,
    pub faults: Option<Seq<char>>,
    pub namespace: Seq<char>,
    pub shape: Shape,
}

/// A fault union as a mathematical value.
pub struct FaultUnionView {
    pub name: Seq<char>,
    pub variants: Seq<Seq<char>>,
}

/// A binding plan as a mathematical value.
pub struct BindingPlanView {
    pub service_name: Seq<char>,
    pub target_namespace: Seq<char>,
    pub records: Seq<RecordPlanView>,
    pub wrappers: Seq<WrapperPlanView>,
    pub operations: Seq<OpPlanView>,
    pub fault_unions: Seq<FaultUnionView>,
}

impl View for BaseType {
    type V = BaseTypeView;

    open spec fn view(&self) -> BaseTypeView {
        match self {
            BaseType::Boolean => BaseTypeView::Boolean,
            BaseType::Text => BaseTypeView::Text,
            BaseType::Integer => BaseTypeView::Integer,
            BaseType::Float => BaseTypeView::Float,
            BaseType::Instant => BaseTypeView::Instant,
            BaseType::Record(name) => BaseTypeView::Record(name@),
        }
    }
}

impl View for FieldType {
    type V = FieldTypeView;

    open spec fn view(&self) -> FieldTypeView {
        FieldTypeView { base: self.base@, sequence: self.sequence, optional: self.optional }
    }
}

impl View for FieldPlan {
    type V = FieldPlanView;

    open spec fn view(&self) -> FieldPlanView {
        FieldPlanView { name: self.name@, element: self.element@, field_type: self.field_type@ }
    }
}

impl View for SerializeStep {
    type V = SerializeStepView;

    open spec fn view(&self) -> SerializeStepView {
        SerializeStepView {
            field: self.field@,
            element: self.element@,
            base: self.base@,
            each_item: self.each_item,
            skip_absent: self.skip_absent,
        }
    }
}

impl View for DeserializeStep {
    type V = DeserializeStepView;

    open spec fn view(&self) -> DeserializeStepView {
        DeserializeStepView {
            field: self.field@,
            element: self.element@,
            base: self.base@,
            source: self.source,
            absent_on_failure: self.absent_on_failure,
        }
    }
}

impl View for RecordPlan {
    type V = RecordPlanView;

    open spec fn view(&self) -> RecordPlanView {
        RecordPlanView {
            name: self.name@,
            source: self.source@,
            fields: each_view(self.fields@),
            serialize_schedule: each_view(self.serialize_schedule@),
            deserialize_schedule: each_view(self.deserialize_schedule@),
        }
    }
}

impl View for WrapperPlan {
    type V = WrapperPlanView;

    open spec fn view(&self) -> WrapperPlanView {
        WrapperPlanView { name: self.name@, inner: self.inner@ }
    }
}

impl View for OpPlan {
    type V = OpPlanView;

    open spec fn view(&self) -> OpPlanView {
        OpPlanView {
            name: self.name@,
            operation: self.operation@,
            input: self.input@,
            output: optional_text(self.output),
            faults: optional_text(self.faults),
            namespace: self.namespace@,
            shape: self.shape,
        }
    }
}

impl View for FaultUnion {
    type V = FaultUnionView;

    open spec fn view(&self) -> FaultUnionView {
        FaultUnionView { name: self.name@, variants: texts(self.variants@) }
    }
}

impl View for BindingPlan {
    type V = BindingPlanView;

    open spec fn view(&self) -> BindingPlanView {
        BindingPlanView {
            service_name: self.service_name@,
            target_namespace: self.target_namespace@,
            records: each_view(self.records@),
            wrappers: each_view(self.wrappers@),
            operations: each_view(self.operations@),
            fault_unions: each_view(self.fault_unions@),
        }
    }
}

/// The names of the entries, in their order.
pub open spec fn keys<T>(entries: Seq<(Seq<char>, T)>) -> Seq<Seq<char>> {
    Seq::new(entries.len(), |i: int| entries[i].0)
}

/// The names as the bindings write them: in upper-camel form where `camel` holds, in
/// lower-snake form where it does not.
pub open spec fn normalized(names: Seq<Seq<char>>, camel: bool) -> Seq<Seq<char>> {
    Seq::new(
        names.len(),
        |i: int|
            if camel {
                camel_case(names[i])
            } else {
                snake_case(names[i])
            },
    )
}

/// Position of the first name that equals `name`, or the number of names where none does.
pub open spec fn name_position(names: Seq<Seq<char>>, name: Seq<char>) -> int
    decreases names.len(),
{
    if names.len() == 0 || names[0] == name {
        0
    } else {
        1 + name_position(names.drop_first(), name)
    }
}

/// Position of the first name from `from` on that equals a name before it, or the number
/// of names where there is none.
pub open spec fn repeat_from(names: Seq<Seq<char>>, from: int) -> int
    decreases names.len() - from,
{
    if from < 0 || from >= names.len() {
        names.len() as int
    } else if name_position(names, names[from]) < from {
        from
    } else {
        repeat_from(names, from + 1)
    }
}

/// The first two names of the model that the bindings would write alike: of the names
/// `sources`, written as `written`, the first that is written as one before it, behind the
/// first that is written so.
pub open spec fn colliding(sources: Seq<Seq<char>>, written: Seq<Seq<char>>) -> Option<
    (Seq<char>, Seq<char>),
> {
    let second = repeat_from(written, 0);
    if second < written.len() {
        Some((sources[name_position(written, written[second])], sources[second]))
    } else {
        None
    }
}

/// The first two names among the entries that the bindings would write alike.
pub open spec fn collision_in<T>(entries: Seq<(Seq<char>, T)>, camel: bool) -> Option<
    (Seq<char>, Seq<char>),
> {
    colliding(keys(entries), normalized(keys(entries), camel))
}

/// The first two fields of one type, from the type at `from` on, that the bindings would
/// write alike.
pub open spec fn field_collision_from(types: Seq<(Seq<char>, TypeView)>, from: int) -> Option<
    (Seq<char>, Seq<char>),
>
    decreases types.len() - from,
{
    if from < 0 || from >= types.len() {
        None
    } else {
        match types[from].1 {
            TypeView::Complex(complex) => match collision_in(complex.fields, false) {
                Some(pair) => Some(pair),
                None => field_collision_from(types, from + 1),
            },
            TypeView::Simple(_) => field_collision_from(types, from + 1),
        }
    }
}

/// The first two names of the model that the bindings would write alike: two types, or else
/// two fields of one type, or else two operations.
pub open spec fn collision(model: WsdlView) -> Option<(Seq<char>, Seq<char>)> {
    match collision_in(model.types, true) {
        Some(pair) => Some(pair),
        None => match field_collision_from(model.types, 0) {
            Some(pair) => Some(pair),
            None => collision_in(model.operations, false),
        },
    }
}

/// Whether `name` is the name of a complex type.
pub open spec fn names_record(types: Seq<(Seq<char>, TypeView)>, name: Seq<char>) -> bool {
    lookup(types, name) is Some && lookup(types, name)->0 is Complex
}

/// The first field from `from` on whose type is a name that is no complex type.
pub open spec fn unresolved_field_from(
    types: Seq<(Seq<char>, TypeView)>,
    fields: Seq<(Seq<char>, (TypeAttribute, SimpleTypeView))>,
    from: int,
) -> Option<Seq<char>>
    decreases fields.len() - from,
{
    if from < 0 || from >= fields.len() {
        None
    } else {
        match fields[from].1.1 {
            SimpleTypeView::Complex(name) => if names_record(types, name) {
                unresolved_field_from(types, fields, from + 1)
            } else {
                Some(name)
            },
            _ => unresolved_field_from(types, fields, from + 1),
        }
    }
}

/// The first name that is no complex type among the field types of the types from `from`
/// on.
pub open spec fn unresolved_type_from(types: Seq<(Seq<char>, TypeView)>, from: int) -> Option<
    Seq<char>,
>
    decreases types.len() - from,
{
    if from < 0 || from >= types.len() {
        None
    } else {
        match types[from].1 {
            TypeView::Complex(complex) => match unresolved_field_from(types, complex.fields, 0) {
                Some(name) => Some(name),
                None => unresolved_type_from(types, from + 1),
            },
            TypeView::Simple(_) => unresolved_type_from(types, from + 1),
        }
    }
}

/// The first part type that is no type of the model, among the messages from `from` on.
pub open spec fn unresolved_message_from(
    types: Seq<(Seq<char>, TypeView)>,
    messages: Seq<(Seq<char>, MessageView)>,
    from: int,
) -> Option<Seq<char>>
    decreases messages.len() - from,
{
    if from < 0 || from >= messages.len() {
        None
    } else if has_key(types, messages[from].1.part_element) {
        unresolved_message_from(types, messages, from + 1)
    } else {
        Some(messages[from].1.part_element)
    }
}

/// The first of the names from `from` on that is no message of the model.
pub open spec fn unresolved_name_from(
    messages: Seq<(Seq<char>, MessageView)>,
    names: Seq<Seq<char>>,
    from: int,
) -> Option<Seq<char>>
    decreases names.len() - from,
{
    if from < 0 || from >= names.len() {
        None
    } else if has_key(messages, names[from]) {
        unresolved_name_from(messages, names, from + 1)
    } else {
        Some(names[from])
    }
}

/// The messages that an operation names: its input, its output, then its faults.
pub open spec fn named_messages(operation: OperationView) -> Seq<Seq<char>> {
    (match operation.input {
        Some(name) => seq![name],
        None => Seq::empty(),
    }) + (match operation.output {
        Some(name) => seq![name],
        None => Seq::empty(),
    }) + (match operation.faults {
        Some(names) => names,
        None => Seq::empty(),
    })
}

/// What an operation lacks: its own name where it has no input, or else the first message
/// that it names and the model lacks.
pub open spec fn unresolved_in(
    messages: Seq<(Seq<char>, MessageView)>,
    name: Seq<char>,
    operation: OperationView,
) -> Option<Seq<char>> {
    if operation.input is None {
        Some(name)
    } else {
        unresolved_name_from(messages, named_messages(operation), 0)
    }
}

/// What the first of the operations from `from` on that lacks something lacks.
pub open spec fn unresolved_operation_from(
    messages: Seq<(Seq<char>, MessageView)>,
    operations: Seq<(Seq<char>, OperationView)>,
    from: int,
) -> Option<Seq<char>>
    decreases operations.len() - from,
{
    if from < 0 || from >= operations.len() {
        None
    } else {
        match unresolved_in(messages, operations[from].0, operations[from].1) {
            Some(name) => Some(name),
            None => unresolved_operation_from(messages, operations, from + 1),
        }
    }
}

/// The first name of the model that refers to nothing: a field type that is no complex
/// type, or else the part type of a message that is no type, or else a message of an
/// operation that is no message. An operation without input lacks its own name.
pub open spec fn unresolved(model: WsdlView) -> Option<Seq<char>> {
    match unresolved_type_from(model.types, 0) {
        Some(name) => Some(name),
        None => match unresolved_message_from(model.types, model.messages, 0) {
            Some(name) => Some(name),
            None => unresolved_operation_from(model.messages, model.operations, 0),
        },
    }
}

/// The base type of a field type of the model.
pub open spec fn base_of(kind: SimpleTypeView) -> BaseTypeView {
    match kind {
        SimpleTypeView::Boolean => BaseTypeView::Boolean,
        SimpleTypeView::String => BaseTypeView::Text,
        SimpleTypeView::Int => BaseTypeView::Integer,
        SimpleTypeView::Float => BaseTypeView::Float,
        SimpleTypeView::DateTime => BaseTypeView::Instant,
        SimpleTypeView::Complex(name) => BaseTypeView::Record(camel_case(name)),
    }
}

/// Whether a field is a sequence: it states both bounds of its occurrence.
pub open spec fn is_sequence(attribute: TypeAttribute) -> bool {
    attribute.min_occurs is Some && attribute.max_occurs is Some
}

/// The type of a field in the bindings: its base type, a sequence of it where the field
/// states both bounds, and that optional where the field is nillable.
pub open spec fn lower(attribute: TypeAttribute, kind: SimpleTypeView) -> FieldTypeView {
    FieldTypeView {
        base: base_of(kind),
        sequence: is_sequence(attribute),
        optional: attribute.nillable,
    }
}

/// The field of a record for a field of the model.
pub open spec fn field_plan(field: (Seq<char>, (TypeAttribute, SimpleTypeView))) -> FieldPlanView {
    FieldPlanView {
        name: snake_case(field.0),
        element: field.0,
        field_type: lower(field.1.0, field.1.1),
    }
}

/// How a field of the model is written.
pub open spec fn serialize_step(
    field: (Seq<char>, (TypeAttribute, SimpleTypeView)),
) -> SerializeStepView {
    SerializeStepView {
        field: snake_case(field.0),
        element: field.0,
        base: base_of(field.1.1),
        each_item: is_sequence(field.1.0),
        skip_absent: field.1.0.nillable,
    }
}

/// How a field of the model is read.
pub open spec fn deserialize_step(
    field: (Seq<char>, (TypeAttribute, SimpleTypeView)),
) -> DeserializeStepView {
    DeserializeStepView {
        field: snake_case(field.0),
        element: field.0,
        base: base_of(field.1.1),
        source: if is_sequence(field.1.0) {
            Source::Children
        } else {
            Source::Path
        },
        absent_on_failure: field.1.0.nillable,
    }
}

/// The record of a complex type: a field and a step of either schedule for each field of
/// the type, in the order of the type.
pub open spec fn record_plan(name: Seq<char>, complex: ComplexTypeView) -> RecordPlanView {
    RecordPlanView {
        name: camel_case(name),
        source: name,
        fields: Seq::new(complex.fields.len(), |i: int| field_plan(complex.fields[i])),
        serialize_schedule: Seq::new(
            complex.fields.len(),
            |i: int| serialize_step(complex.fields[i]),
        ),
        deserialize_schedule: Seq::new(
            complex.fields.len(),
            |i: int| deserialize_step(complex.fields[i]),
        ),
    }
}

/// The complex types among the types, in their order.
pub open spec fn complex_types(types: Seq<(Seq<char>, TypeView)>) -> Seq<
    (Seq<char>, ComplexTypeView),
>
    decreases types.len(),
{
    if types.len() == 0 {
        Seq::empty()
    } else {
        match types.last().1 {
            TypeView::Complex(complex) => complex_types(types.drop_last()).push(
                (types.last().0, complex),
            ),
            TypeView::Simple(_) => complex_types(types.drop_last()),
        }
    }
}

/// The records of the model: one for each complex type, in the order of the types.
pub open spec fn records_of(types: Seq<(Seq<char>, TypeView)>) -> Seq<RecordPlanView> {
    Seq::new(
        complex_types(types).len(),
        |i: int| record_plan(complex_types(types)[i].0, complex_types(types)[i].1),
    )
}

/// The wrapper of a message: it goes by the name of the message and wraps the record of
/// the part type.
pub open spec fn wrapper_plan(name: Seq<char>, message: MessageView) -> WrapperPlanView {
    WrapperPlanView { name, inner: camel_case(message.part_element) }
}

/// How an operation is invoked, by what it declares besides its input.
pub open spec fn shape_of(operation: OperationView) -> Shape {
    if operation.output is Some {
        if operation.faults is Some {
            Shape::RequestResponseWithFaults
        } else {
            Shape::RequestResponse
        }
    } else if operation.faults is Some {
        Shape::Unimplemented
    } else {
        Shape::OneWay
    }
}

/// The name of the fault union of an operation.
pub open spec fn fault_union_name(operation: Seq<char>) -> Seq<char> {
    camel_case(operation) + "Error"@
}

/// The binding of an operation of a service in the namespace `namespace`.
pub open spec fn operation_plan(namespace: Seq<char>, name: Seq<char>, operation: OperationView)
    -> OpPlanView {
    OpPlanView {
        name: snake_case(name),
        operation: name,
        input: match operation.input {
            Some(input) => input,
            None => Seq::empty(),
        },
        output: operation.output,
        faults: if operation.faults is Some {
            Some(fault_union_name(name))
        } else {
            None
        },
        namespace,
        shape: shape_of(operation),
    }
}

/// The operations that declare faults, in their order.
pub open spec fn faulty(operations: Seq<(Seq<char>, OperationView)>) -> Seq<
    (Seq<char>, OperationView),
>
    decreases operations.len(),
{
    if operations.len() == 0 {
        Seq::empty()
    } else if operations.last().1.faults is Some {
        faulty(operations.drop_last()).push(operations.last())
    } else {
        faulty(operations.drop_last())
    }
}

/// The fault union of an operation that declares faults.
pub open spec fn fault_union(name: Seq<char>, operation: OperationView) -> FaultUnionView {
    FaultUnionView {
        name: fault_union_name(name),
        variants: match operation.faults {
            Some(faults) => faults,
            None => Seq::empty(),
        },
    }
}

/// The bindings of a model whose names neither collide nor refer to nothing.
pub open spec fn bindings(model: WsdlView) -> BindingPlanView {
    BindingPlanView {
        service_name: model.name,
        target_namespace: model.target_namespace,
        records: records_of(model.types),
        wrappers: Seq::new(
            model.messages.len(),
            |i: int| wrapper_plan(model.messages[i].0, model.messages[i].1),
        ),
        operations: Seq::new(
            model.operations.len(),
            |i: int|
                operation_plan(
                    model.target_namespace,
                    model.operations[i].0,
                    model.operations[i].1,
                ),
        ),
        fault_unions: Seq::new(
            faulty(model.operations).len(),
            |i: int| fault_union(faulty(model.operations)[i].0, faulty(model.operations)[i].1),
        ),
    }
}

/// The binding plan of a service model. A model in which two names collide has none, and
/// the error names the two; else a model in which a name refers to nothing has none, and
/// the error names it.
pub open spec fn plan_of(model: WsdlView) -> Result<BindingPlanView, GenErrorView> {
    match collision(model) {
        Some(pair) => Err(GenErrorView::NameCollision { pair }),
        None => match unresolved(model) {
            Some(name) => Err(GenErrorView::UnresolvedReference { name }),
            None => Ok(bindings(model)),
        },
    }
}

/// Two names as texts.
pub open spec fn pair_view(pair: Option<(String, String)>) -> Option<(Seq<char>, Seq<char>)> {
    match pair {
        Some((first, second)) => Some((first@, second@)),
        None => None,
    }
}

/// What `name_position` finds: the first name that equals `name`, or the end.
pub proof fn lemma_name_position(names: Seq<Seq<char>>, name: Seq<char>)
    ensures
        0 <= name_position(names, name) <= names.len(),
        name_position(names, name) < names.len() ==> names[name_position(names, name)] == name,
        forall|i: int| 0 <= i < name_position(names, name) ==> names[i] != name,
    decreases names.len(),
{
    if names.len() == 0 || names[0] == name {
    } else {
        let rest = names.drop_first();
        lemma_name_position(rest, name);
        assert forall|i: int| 0 <= i < name_position(names, name) implies names[i] != name by {
            if i > 0 {
                assert(names[i] == rest[i - 1]);
            }
        }
    }
}

/// What `repeat_from` finds: the first name from `from` on that equals a name before it,
/// or the end.
pub proof fn lemma_repeat_from(names: Seq<Seq<char>>, from: int)
    requires
        0 <= from <= names.len(),
    ensures
        from <= repeat_from(names, from) <= names.len(),
        repeat_from(names, from) < names.len() ==> name_position(
            names,
            names[repeat_from(names, from)],
        ) < repeat_from(names, from),
        forall|j: int, i: int|
            from <= j < repeat_from(names, from) && 0 <= i < j ==> names[i] != names[j],
    decreases names.len() - from,
{
    if from < names.len() {
        lemma_name_position(names, names[from]);
        if name_position(names, names[from]) < from {
        } else {
            lemma_repeat_from(names, from + 1);
        }
    }
}

/// A copy of a base type.
fn copy_base(base: &BaseType) -> (r: BaseType)
    ensures
        r@ == base@,
{
    match base {
        BaseType::Boolean => BaseType::Boolean,
        BaseType::Text => BaseType::Text,
        BaseType::Integer => BaseType::Integer,
        BaseType::Float => BaseType::Float,
        BaseType::Instant => BaseType::Instant,
        BaseType::Record(name) => BaseType::Record(name.clone()),
    }
}

/// The base type of a field type of the model.
fn base_type(kind: &SimpleType) -> (r: BaseType)
    ensures
        r@ == base_of(kind@),
{
    match kind {
        SimpleType::Boolean => BaseType::Boolean,
        SimpleType::String => BaseType::Text,
        SimpleType::Int => BaseType::Integer,
        SimpleType::Float => BaseType::Float,
        SimpleType::DateTime => BaseType::Instant,
        SimpleType::Complex(name) => BaseType::Record(to_camel(name.as_str())),
    }
}

/// The record of a complex type.
fn record(name: &String, complex: &ComplexType) -> (r: RecordPlan)
    ensures
        r@ == record_plan(name@, complex@),
{
    let mut fields: Vec<FieldPlan> = Vec::new();
    let mut serialize_schedule: Vec<SerializeStep> = Vec::new();
    let mut deserialize_schedule: Vec<DeserializeStep> = Vec::new();
    let ghost declared = entries_view(complex.fields@);
    let mut i: usize = 0;
    while i < complex.fields.len()
        invariant
            i <= complex.fields.len(),
            declared == entries_view(complex.fields@),
            fields@.len() == i,
            serialize_schedule@.len() == i,
            deserialize_schedule@.len() == i,
            forall|j: int| 0 <= j < i ==> (#[trigger] fields@[j])@ == field_plan(declared[j]),
            forall|j: int|
                0 <= j < i ==> (#[trigger] serialize_schedule@[j])@ == serialize_step(declared[j]),
            forall|j: int|
                0 <= j < i ==> (#[trigger] deserialize_schedule@[j])@ == deserialize_step(
                    declared[j],
                ),
        decreases complex.fields.len() - i,
    {
        let entry = &complex.fields[i];
        let attribute = &entry.1.0;
        let base = base_type(&entry.1.1);
        let sequence = attribute.min_occurs.is_some() && attribute.max_occurs.is_some();
        let written = to_snake(entry.0.as_str());
        assert(declared[i as int] == (entry.0@, (entry.1.0, entry.1.1@)));
        serialize_schedule.push(
            SerializeStep {
                field: written.clone(),
                element: entry.0.clone(),
                base: copy_base(&base),
                each_item: sequence,
                skip_absent: attribute.nillable,
            },
        );
        deserialize_schedule.push(
            DeserializeStep {
                field: written.clone(),
                element: entry.0.clone(),
                base: copy_base(&base),
                source: if sequence {
                    Source::Children
                } else {
                    Source::Path
                },
                absent_on_failure: attribute.nillable,
            },
        );
        fields.push(
            FieldPlan {
                name: written,
                element: entry.0.clone(),
                field_type: FieldType { base, sequence, optional: attribute.nillable },
            },
        );
        i += 1;
    }
    let r = RecordPlan {
        name: to_camel(name.as_str()),
        source: name.clone(),
        fields,
        serialize_schedule,
        deserialize_schedule,
    };
    proof {
        let wanted = record_plan(name@, complex@);
        assert(r@.fields =~= wanted.fields);
        assert(r@.serialize_schedule =~= wanted.serialize_schedule);
        assert(r@.deserialize_schedule =~= wanted.deserialize_schedule);
    }
    r
}

/// The records of the types.
fn records(types: &Vec<(String, Type)>) -> (r: Vec<RecordPlan>)
    ensures
        each_view(r@) == records_of(entries_view(types@)),
{
    let mut found: Vec<RecordPlan> = Vec::new();
    let ghost all = entries_view(types@);
    let mut i: usize = 0;
    assert(complex_types(all.take(0)).len() == 0);
    while i < types.len()
        invariant
            i <= types.len(),
            all == entries_view(types@),
            found@.len() == complex_types(all.take(i as int)).len(),
            forall|k: int|
                0 <= k < found@.len() ==> (#[trigger] found@[k])@ == record_plan(
                    complex_types(all.take(i as int))[k].0,
                    complex_types(all.take(i as int))[k].1,
                ),
        decreases types.len() - i,
    {
        proof {
            assert(all.take(i + 1).drop_last() == all.take(i as int));
            assert(all.take(i + 1).last() == all[i as int]);
            assert(all[i as int] == (types@[i as int].0@, types@[i as int].1@));
        }
        match &types[i].1 {
            Type::Complex(complex) => {
                found.push(record(&types[i].0, complex));
            },
            Type::Simple(_) => {},
        }
        i += 1;
    }
    assert(all.take(all.len() as int) == all);
    assert(each_view(found@) =~= records_of(all));
    found
}

/// The wrappers of the messages.
fn wrappers(messages: &Vec<(String, Message)>) -> (r: Vec<WrapperPlan>)
    ensures
        each_view(r@).len() == messages.len(),
        forall|i: int|
            0 <= i < messages.len() ==> (#[trigger] each_view(r@)[i]) == wrapper_plan(
                entries_view(messages@)[i].0,
                entries_view(messages@)[i].1,
            ),
{
    let mut found: Vec<WrapperPlan> = Vec::new();
    let mut i: usize = 0;
    while i < messages.len()
        invariant
            i <= messages.len(),
            found@.len() == i,
            forall|k: int|
                0 <= k < i ==> (#[trigger] found@[k])@ == wrapper_plan(
                    entries_view(messages@)[k].0,
                    entries_view(messages@)[k].1,
                ),
        decreases messages.len() - i,
    {
        let entry = &messages[i];
        found.push(
            WrapperPlan {
                name: entry.0.clone(),
                inner: to_camel(entry.1.part_element.as_str()),
            },
        );
        i += 1;
    }
    found
}

/// A copy of an optional string.
fn copy_optional(text: &Option<String>) -> (r: Option<String>)
    ensures
        r == *text,
{
    match text {
        Some(t) => Some(t.clone()),
        None => None,
    }
}

/// A copy of a list of strings.
fn copy_names(names: &Vec<String>) -> (r: Vec<String>)
    ensures
        texts(r@) == texts(names@),
{
    let mut copy: Vec<String> = Vec::new();
    let mut i: usize = 0;
    while i < names.len()
        invariant
            i <= names.len(),
            copy@ == names@.take(i as int),
        decreases names.len() - i,
    {
        copy.push(names[i].clone());
        assert(copy@ =~= names@.take(i + 1));
        i += 1;
    }
    assert(names@.take(names@.len() as int) == names@);
    copy
}

/// The name of the fault union of an operation.
fn union_name(operation: &str) -> (r: String)
    ensures
        r@ == fault_union_name(operation@),
{
    to_camel(operation).concat("Error")
}

/// The bindings of the operations.
fn operation_plans(namespace: &String, operations: &Vec<(String, Operation)>) -> (r: Vec<OpPlan>)
    ensures
        each_view(r@).len() == operations.len(),
        forall|i: int|
            0 <= i < operations.len() ==> (#[trigger] each_view(r@)[i]) == operation_plan(
                namespace@,
                entries_view(operations@)[i].0,
                entries_view(operations@)[i].1,
            ),
{
    let mut found: Vec<OpPlan> = Vec::new();
    let mut i: usize = 0;
    while i < operations.len()
        invariant
            i <= operations.len(),
            found@.len() == i,
            forall|k: int|
                0 <= k < i ==> (#[trigger] found@[k])@ == operation_plan(
                    namespace@,
                    entries_view(operations@)[k].0,
                    entries_view(operations@)[k].1,
                ),
        decreases operations.len() - i,
    {
        let entry = &operations[i];
        let operation = &entry.1;
        let shape = if operation.output.is_some() {
            if operation.faults.is_some() {
                Shape::RequestResponseWithFaults
            } else {
                Shape::RequestResponse
            }
        } else if operation.faults.is_some() {
            Shape::Unimplemented
        } else {
            Shape::OneWay
        };
        found.push(
            OpPlan {
                name: to_snake(entry.0.as_str()),
                operation: entry.0.clone(),
                input: match &operation.input {
                    Some(input) => input.clone(),
                    None => String::new(),
                },
                output: copy_optional(&operation.output),
                faults: if operation.faults.is_some() {
                    Some(union_name(entry.0.as_str()))
                } else {
                    None
                },
                namespace: namespace.clone(),
                shape,
            },
        );
        i += 1;
    }
    found
}

/// The fault unions of the operations.
fn fault_unions(operations: &Vec<(String, Operation)>) -> (r: Vec<FaultUnion>)
    ensures
        each_view(r@).len() == faulty(entries_view(operations@)).len(),
        forall|i: int|
            0 <= i < each_view(r@).len() ==> (#[trigger] each_view(r@)[i]) == fault_union(
                faulty(entries_view(operations@))[i].0,
                faulty(entries_view(operations@))[i].1,
            ),
{
    let mut found: Vec<FaultUnion> = Vec::new();
    let ghost all = entries_view(operations@);
    let mut i: usize = 0;
    assert(faulty(all.take(0)).len() == 0);
    while i < operations.len()
        invariant
            i <= operations.len(),
            all == entries_view(operations@),
            found@.len() == faulty(all.take(i as int)).len(),
            forall|k: int|
                0 <= k < found@.len() ==> (#[trigger] found@[k])@ == fault_union(
                    faulty(all.take(i as int))[k].0,
                    faulty(all.take(i as int))[k].1,
                ),
        decreases operations.len() - i,
    {
        proof {
            assert(all.take(i + 1).drop_last() == all.take(i as int));
            assert(all.take(i + 1).last() == all[i as int]);
            assert(all[i as int] == (operations@[i as int].0@, operations@[i as int].1@));
        }
        match &operations[i].1.faults {
            Some(faults) => {
                found.push(
                    FaultUnion {
                        name: union_name(operations[i].0.as_str()),
                        variants: copy_names(faults),
                    },
                );
            },
            None => {},
        }
        i += 1;
    }
    assert(all.take(all.len() as int) == all);
    found
}

/// The names of the entries as the bindings write them.
fn written_names<V: View>(entries: &Vec<(String, V)>, camel: bool) -> (r: Vec<String>)
    ensures
        texts(r@) == normalized(keys(entries_view(entries@)), camel),
{
    let mut written: Vec<String> = Vec::new();
    let mut i: usize = 0;
    while i < entries.len()
        invariant
            i <= entries.len(),
            written@.len() == i,
            forall|k: int|
                0 <= k < i ==> (#[trigger] written@[k])@ == (if camel {
                    camel_case(entries@[k].0@)
                } else {
                    snake_case(entries@[k].0@)
                }),
        decreases entries.len() - i,
    {
        let name = if camel {
            to_camel(entries[i].0.as_str())
        } else {
            to_snake(entries[i].0.as_str())
        };
        written.push(name);
        i += 1;
    }
    assert(texts(written@) =~= normalized(keys(entries_view(entries@)), camel));
    written
}

/// Position of the first name that equals `name`, or the number of names.
fn first_equal(names: &Vec<String>, name: &String) -> (at: usize)
    ensures
        at == name_position(texts(names@), name@),
        at <= names.len(),
{
    let mut i: usize = 0;
    while i < names.len() && names[i] != *name
        invariant
            i <= names.len(),
            forall|k: int| 0 <= k < i ==> (#[trigger] names@[k])@ != name@,
        decreases names.len() - i,
    {
        i += 1;
    }
    proof {
        lemma_name_position(texts(names@), name@);
        let at = name_position(texts(names@), name@);
        if at < i {
            assert(texts(names@)[at] == names@[at]@);
        }
        if i < names.len() {
            assert(texts(names@)[i as int] == names@[i as int]@);
        }
    }
    i
}

/// The first two names among the entries that the bindings would write alike.
fn find_collision<V: View>(entries: &Vec<(String, V)>, camel: bool) -> (r: Option<
    (String, String),
>)
    ensures
        pair_view(r) == collision_in(entries_view(entries@), camel),
{
    let written = written_names(entries, camel);
    let ghost names = texts(written@);
    let mut j: usize = 0;
    while j < written.len()
        invariant
            j <= written.len(),
            written@.len() == entries@.len(),
            names == texts(written@),
            names == normalized(keys(entries_view(entries@)), camel),
            repeat_from(names, 0) == repeat_from(names, j as int),
        decreases written.len() - j,
    {
        let first = first_equal(&written, &written[j]);
        assert(names[j as int] == written@[j as int]@);
        if first < j {
            return Some((entries[first].0.clone(), entries[j].0.clone()));
        }
        j += 1;
    }
    None
}

/// The first two fields of one type that the bindings would write alike.
fn find_field_collision(types: &Vec<(String, Type)>) -> (r: Option<(String, String)>)
    ensures
        pair_view(r) == field_collision_from(entries_view(types@), 0),
{
    let ghost all = entries_view(types@);
    let mut i: usize = 0;
    while i < types.len()
        invariant
            i <= types.len(),
            all == entries_view(types@),
            field_collision_from(all, 0) == field_collision_from(all, i as int),
        decreases types.len() - i,
    {
        assert(all[i as int] == (types@[i as int].0@, types@[i as int].1@));
        match &types[i].1 {
            Type::Complex(complex) => {
                match find_collision(&complex.fields, false) {
                    Some(pair) => {
                        return Some(pair);
                    },
                    None => {},
                }
            },
            Type::Simple(_) => {},
        }
        i += 1;
    }
    None
}

/// The first field whose type is a name that is no complex type.
fn find_unresolved_field(
    types: &Vec<(String, Type)>,
    fields: &Vec<(String, (TypeAttribute, SimpleType))>,
) -> (r: Option<String>)
    ensures
        optional_text(r) == unresolved_field_from(
            entries_view(types@),
            entries_view(fields@),
            0,
        ),
{
    let ghost all = entries_view(fields@);
    let mut i: usize = 0;
    while i < fields.len()
        invariant
            i <= fields.len(),
            all == entries_view(fields@),
            unresolved_field_from(entries_view(types@), all, 0) == unresolved_field_from(
                entries_view(types@),
                all,
                i as int,
            ),
        decreases fields.len() - i,
    {
        assert(all[i as int] == (fields@[i as int].0@, fields@[i as int].1@));
        match &fields[i].1.1 {
            SimpleType::Complex(name) => {
                let resolved = match get(types, name.as_str()) {
                    Some(Type::Complex(_)) => true,
                    _ => false,
                };
                if !resolved {
                    return Some(name.clone());
                }
            },
            _ => {},
        }
        i += 1;
    }
    None
}

/// The first name that is no complex type among the field types of the types.
fn find_unresolved_type(types: &Vec<(String, Type)>) -> (r: Option<String>)
    ensures
        optional_text(r) == unresolved_type_from(entries_view(types@), 0),
{
    let ghost all = entries_view(types@);
    let mut i: usize = 0;
    while i < types.len()
        invariant
            i <= types.len(),
            all == entries_view(types@),
            unresolved_type_from(all, 0) == unresolved_type_from(all, i as int),
        decreases types.len() - i,
    {
        assert(all[i as int] == (types@[i as int].0@, types@[i as int].1@));
        match &types[i].1 {
            Type::Complex(complex) => {
                match find_unresolved_field(types, &complex.fields) {
                    Some(name) => {
                        return Some(name);
                    },
                    None => {},
                }
            },
            Type::Simple(_) => {},
        }
        i += 1;
    }
    None
}

/// The first part type that is no type of the model.
fn find_unresolved_message(
    types: &Vec<(String, Type)>,
    messages: &Vec<(String, Message)>,
) -> (r: Option<String>)
    ensures
        optional_text(r) == unresolved_message_from(
            entries_view(types@),
            entries_view(messages@),
            0,
        ),
{
    let ghost all = entries_view(messages@);
    let mut i: usize = 0;
    while i < messages.len()
        invariant
            i <= messages.len(),
            all == entries_view(messages@),
            unresolved_message_from(entries_view(types@), all, 0) == unresolved_message_from(
                entries_view(types@),
                all,
                i as int,
            ),
        decreases messages.len() - i,
    {
        assert(all[i as int] == (messages@[i as int].0@, messages@[i as int].1@));
        if get(types, messages[i].1.part_element.as_str()).is_none() {
            return Some(messages[i].1.part_element.clone());
        }
        i += 1;
    }
    None
}

/// The messages that an operation names: its input, its output, then its faults.
fn messages_named(operation: &Operation) -> (r: Vec<String>)
    ensures
        texts(r@) == named_messages(operation@),
{
    let mut names: Vec<String> = Vec::new();
    match &operation.input {
        Some(name) => {
            names.push(name.clone());
        },
        None => {},
    }
    match &operation.output {
        Some(name) => {
            names.push(name.clone());
        },
        None => {},
    }
    let ghost front = texts(names@);
    assert(front =~= (match operation@.input {
        Some(name) => seq![name],
        None => Seq::empty(),
    }) + (match operation@.output {
        Some(name) => seq![name],
        None => Seq::empty(),
    }));
    match &operation.faults {
        Some(faults) => {
            let mut i: usize = 0;
            while i < faults.len()
                invariant
                    i <= faults.len(),
                    texts(names@) == front + texts(faults@).take(i as int),
                decreases faults.len() - i,
            {
                let ghost before = names@;
                names.push(faults[i].clone());
                assert(texts(names@) =~= texts(before).push(faults@[i as int]@));
                assert(texts(faults@).take(i + 1) =~= texts(faults@).take(i as int).push(
                    faults@[i as int]@,
                ));
                i += 1;
            }
            assert(texts(faults@).take(faults@.len() as int) == texts(faults@));
        },
        None => {
            assert(texts(names@) =~= front + Seq::<Seq<char>>::empty());
        },
    }
    names
}

/// What an operation lacks.
fn find_unresolved_in(messages: &Vec<(String, Message)>, name: &String, operation: &Operation)
    -> (r: Option<String>)
    ensures
        optional_text(r) == unresolved_in(entries_view(messages@), name@, operation@),
{
    if operation.input.is_none() {
        return Some(name.clone());
    }
    let names = messages_named(operation);
    let ghost all = texts(names@);
    let mut i: usize = 0;
    while i < names.len()
        invariant
            i <= names.len(),
            all == texts(names@),
            all == named_messages(operation@),
            operation.input is Some,
            unresolved_name_from(entries_view(messages@), all, 0) == unresolved_name_from(
                entries_view(messages@),
                all,
                i as int,
            ),
        decreases names.len() - i,
    {
        assert(all[i as int] == names@[i as int]@);
        if get(messages, names[i].as_str()).is_none() {
            return Some(names[i].clone());
        }
        i += 1;
    }
    None
}

/// What the first operation that lacks something lacks.
fn find_unresolved_operation(
    messages: &Vec<(String, Message)>,
    operations: &Vec<(String, Operation)>,
) -> (r: Option<String>)
    ensures
        optional_text(r) == unresolved_operation_from(
            entries_view(messages@),
            entries_view(operations@),
            0,
        ),
{
    let ghost all = entries_view(operations@);
    let mut i: usize = 0;
    while i < operations.len()
        invariant
            i <= operations.len(),
            all == entries_view(operations@),
            unresolved_operation_from(entries_view(messages@), all, 0)
                == unresolved_operation_from(entries_view(messages@), all, i as int),
        decreases operations.len() - i,
    {
        assert(all[i as int] == (operations@[i as int].0@, operations@[i as int].1@));
        match find_unresolved_in(messages, &operations[i].0, &operations[i].1) {
            Some(name) => {
                return Some(name);
            },
            None => {},
        }
        i += 1;
    }
    None
}

/// The first two names of the model that the bindings would write alike.
fn find_model_collision(wsdl: &Wsdl) -> (r: Option<(String, String)>)
    ensures
        pair_view(r) == collision(wsdl@),
{
    match find_collision(&wsdl.types, true) {
        Some(pair) => Some(pair),
        None => match find_field_collision(&wsdl.types) {
            Some(pair) => Some(pair),
            None => find_collision(&wsdl.operations, false),
        },
    }
}

/// The first name of the model that refers to nothing.
fn find_unresolved(wsdl: &Wsdl) -> (r: Option<String>)
    ensures
        optional_text(r) == unresolved(wsdl@),
{
    match find_unresolved_type(&wsdl.types) {
        Some(name) => Some(name),
        None => match find_unresolved_message(&wsdl.types, &wsdl.messages) {
            Some(name) => Some(name),
            None => find_unresolved_operation(&wsdl.messages, &wsdl.operations),
        },
    }
}

/// Plans the bindings of a service model.
pub fn plan(wsdl: &Wsdl) -> (r: Result<BindingPlan, GenError>)
    ensures
        view_result(r) == plan_of(wsdl@),
{
    match find_model_collision(wsdl) {
        Some(pair) => {
            return Err(GenError::NameCollision { pair });
        },
        None => {},
    }
    match find_unresolved(wsdl) {
        Some(name) => {
            return Err(GenError::UnresolvedReference { name });
        },
        None => {},
    }
    let r = BindingPlan {
        service_name: wsdl.name.clone(),
        target_namespace: wsdl.target_namespace.clone(),
        records: records(&wsdl.types),
        wrappers: wrappers(&wsdl.messages),
        operations: operation_plans(&wsdl.target_namespace, &wsdl.operations),
        fault_unions: fault_unions(&wsdl.operations),
    };
    proof {
        let wanted = bindings(wsdl@);
        assert(r@.wrappers =~= wanted.wrappers);
        assert(r@.operations =~= wanted.operations);
        assert(r@.fault_unions =~= wanted.fault_unions);
    }
    Ok(r)
}

/// Whether the bindings write no two of the names alike.
pub open spec fn written_apart(names: Seq<Seq<char>>, camel: bool) -> bool {
    forall|i: int, j: int|
        0 <= i < j < names.len() ==> (#[trigger] normalized(names, camel)[i]) != (
        #[trigger] normalized(names, camel)[j])
}

/// Whether the bindings write no two types of a model alike, nor two of its operations,
/// nor two fields of one of its types.
pub open spec fn names_apart(model: WsdlView) -> bool {
    &&& written_apart(keys(model.types), true)
    &&& written_apart(keys(model.operations), false)
    &&& forall|t: int|
        0 <= t < model.types.len() ==> match (#[trigger] model.types[t]).1 {
            TypeView::Complex(complex) => written_apart(keys(complex.fields), false),
            TypeView::Simple(_) => true,
        }
}

/// Names collide exactly where the bindings write two of them alike.
pub proof fn lemma_collision_in<T>(entries: Seq<(Seq<char>, T)>, camel: bool)
    ensures
        collision_in(entries, camel) is None <==> written_apart(keys(entries), camel),
{
    let written = normalized(keys(entries), camel);
    lemma_repeat_from(written, 0);
    let second = repeat_from(written, 0);
    if second < written.len() {
        lemma_name_position(written, written[second]);
        let first = name_position(written, written[second]);
        assert(normalized(keys(entries), camel)[first] == normalized(keys(entries), camel)[second]);
    }
}

/// The fields of some type collide exactly where the bindings write two fields of one type
/// alike, from the type at `from` on.
pub proof fn lemma_field_collision_from(types: Seq<(Seq<char>, TypeView)>, from: int)
    requires
        0 <= from <= types.len(),
    ensures
        field_collision_from(types, from) is None <==> forall|t: int|
            from <= t < types.len() ==> match (#[trigger] types[t]).1 {
                TypeView::Complex(complex) => written_apart(keys(complex.fields), false),
                TypeView::Simple(_) => true,
            },
    decreases types.len() - from,
{
    if from < types.len() {
        lemma_field_collision_from(types, from + 1);
        match types[from].1 {
            TypeView::Complex(complex) => {
                lemma_collision_in(complex.fields, false);
            },
            TypeView::Simple(_) => {},
        }
    }
}

/// Name normalization is one-to-one on the models that have a plan: a model fails with a
/// name collision exactly where the bindings would write two of its types alike, or two of
/// its operations, or two fields of one of its types.
pub proof fn lemma_collision_exactly(model: WsdlView)
    ensures
        plan_of(model) is Err && plan_of(model)->Err_0 is NameCollision <==> !names_apart(model),
        plan_of(model) is Ok ==> names_apart(model),
{
    lemma_collision_in(model.types, true);
    lemma_collision_in(model.operations, false);
    lemma_field_collision_from(model.types, 0);
}

/// Whether the type of each field is a complex type of the types where it is a name.
pub open spec fn fields_resolve(
    types: Seq<(Seq<char>, TypeView)>,
    fields: Seq<(Seq<char>, (TypeAttribute, SimpleTypeView))>,
) -> bool {
    forall|f: int|
        0 <= f < fields.len() ==> match (#[trigger] fields[f]).1.1 {
            SimpleTypeView::Complex(name) => names_record(types, name),
            _ => true,
        }
}

/// Whether an operation has an input, and each message that it names is a message of the
/// model.
pub open spec fn operation_resolves(
    messages: Seq<(Seq<char>, MessageView)>,
    operation: OperationView,
) -> bool {
    &&& operation.input is Some
    &&& forall|k: int|
        0 <= k < named_messages(operation).len() ==> has_key(
            messages,
            #[trigger] named_messages(operation)[k],
        )
}

/// Whether every name of a model refers to something: the type of each field is a complex
/// type where it is a name, the part type of each message is a type, and each operation
/// has an input and names messages of the model.
pub open spec fn references_resolve(model: WsdlView) -> bool {
    &&& forall|t: int|
        0 <= t < model.types.len() ==> match (#[trigger] model.types[t]).1 {
            TypeView::Complex(complex) => fields_resolve(model.types, complex.fields),
            TypeView::Simple(_) => true,
        }
    &&& forall|m: int|
        0 <= m < model.messages.len() ==> has_key(
            model.types,
            (#[trigger] model.messages[m]).1.part_element,
        )
    &&& forall|o: int|
        0 <= o < model.operations.len() ==> operation_resolves(
            model.messages,
            (#[trigger] model.operations[o]).1,
        )
}

/// No field from `from` on is unresolved exactly where the type of each is a complex type
/// where it is a name.
proof fn lemma_unresolved_field_from(
    types: Seq<(Seq<char>, TypeView)>,
    fields: Seq<(Seq<char>, (TypeAttribute, SimpleTypeView))>,
    from: int,
)
    requires
        0 <= from <= fields.len(),
    ensures
        unresolved_field_from(types, fields, from) is None <==> forall|f: int|
            from <= f < fields.len() ==> match (#[trigger] fields[f]).1.1 {
                SimpleTypeView::Complex(name) => names_record(types, name),
                _ => true,
            },
    decreases fields.len() - from,
{
    if from < fields.len() {
        lemma_unresolved_field_from(types, fields, from + 1);
    }
}

/// No type from `from` on has an unresolved field exactly where the fields of each resolve.
proof fn lemma_unresolved_type_from(types: Seq<(Seq<char>, TypeView)>, from: int)
    requires
        0 <= from <= types.len(),
    ensures
        unresolved_type_from(types, from) is None <==> forall|t: int|
            from <= t < types.len() ==> match (#[trigger] types[t]).1 {
                TypeView::Complex(complex) => fields_resolve(types, complex.fields),
                TypeView::Simple(_) => true,
            },
    decreases types.len() - from,
{
    if from < types.len() {
        lemma_unresolved_type_from(types, from + 1);
        match types[from].1 {
            TypeView::Complex(complex) => {
                lemma_unresolved_field_from(types, complex.fields, 0);
            },
            TypeView::Simple(_) => {},
        }
    }
}

/// No message from `from` on is unresolved exactly where the part type of each is a type.
proof fn lemma_unresolved_message_from(
    types: Seq<(Seq<char>, TypeView)>,
    messages: Seq<(Seq<char>, MessageView)>,
    from: int,
)
    requires
        0 <= from <= messages.len(),
    ensures
        unresolved_message_from(types, messages, from) is None <==> forall|m: int|
            from <= m < messages.len() ==> has_key(types, (#[trigger] messages[m]).1.part_element),
    decreases messages.len() - from,
{
    if from < messages.len() {
        lemma_unresolved_message_from(types, messages, from + 1);
    }
}

/// No name from `from` on is unresolved exactly where each is a message.
proof fn lemma_unresolved_name_from(
    messages: Seq<(Seq<char>, MessageView)>,
    names: Seq<Seq<char>>,
    from: int,
)
    requires
        0 <= from <= names.len(),
    ensures
        unresolved_name_from(messages, names, from) is None <==> forall|k: int|
            from <= k < names.len() ==> has_key(messages, #[trigger] names[k]),
    decreases names.len() - from,
{
    if from < names.len() {
        lemma_unresolved_name_from(messages, names, from + 1);
    }
}

/// No operation from `from` on is unresolved exactly where each resolves.
proof fn lemma_unresolved_operation_from(
    messages: Seq<(Seq<char>, MessageView)>,
    operations: Seq<(Seq<char>, OperationView)>,
    from: int,
)
    requires
        0 <= from <= operations.len(),
    ensures
        unresolved_operation_from(messages, operations, from) is None <==> forall|o: int|
            from <= o < operations.len() ==> operation_resolves(
                messages,
                (#[trigger] operations[o]).1,
            ),
    decreases operations.len() - from,
{
    if from < operations.len() {
        lemma_unresolved_operation_from(messages, operations, from + 1);
        lemma_unresolved_name_from(messages, named_messages(operations[from].1), 0);
    }
}

/// A model has a plan exactly where the bindings write its names apart and every name of
/// it refers to something; a model whose names are written apart fails with an unresolved
/// reference exactly where a name of it refers to nothing.
pub proof fn lemma_plan_exactly(model: WsdlView)
    ensures
        plan_of(model) is Ok <==> names_apart(model) && references_resolve(model),
        plan_of(model) is Err && plan_of(model)->Err_0 is UnresolvedReference <==> names_apart(
            model,
        ) && !references_resolve(model),
{
    lemma_collision_exactly(model);
    lemma_unresolved_type_from(model.types, 0);
    lemma_unresolved_message_from(model.types, model.messages, 0);
    lemma_unresolved_operation_from(model.messages, model.operations, 0);
}

/// The records of a plan stand for the complex types of the model in their order, and the
/// fields of each record and the steps of both of its schedules stand for the fields of its
/// type in their order.
pub proof fn lemma_field_order(model: WsdlView, plan: BindingPlanView)
    requires
        plan_of(model) == Ok::<BindingPlanView, GenErrorView>(plan),
    ensures
        plan.records.len() == complex_types(model.types).len(),
        forall|k: int|
            0 <= k < plan.records.len() ==> {
                let record = #[trigger] plan.records[k];
                let fields = complex_types(model.types)[k].1.fields;
                &&& record.source == complex_types(model.types)[k].0
                &&& record.fields.len() == fields.len()
                &&& record.serialize_schedule.len() == fields.len()
                &&& record.deserialize_schedule.len() == fields.len()
                &&& forall|j: int|
                    0 <= j < fields.len() ==> {
                        &&& (#[trigger] record.fields[j]).element == fields[j].0
                        &&& record.serialize_schedule[j].element == fields[j].0
                        &&& record.deserialize_schedule[j].element == fields[j].0
                    }
            },
{
}

/// The plan of a model is a function of what the model holds: models that hold the same
/// have the same plan.
pub proof fn lemma_plan_deterministic(first: Wsdl, second: Wsdl)
    requires
        first@ == second@,
    ensures
        plan_of(first@) == plan_of(second@),
{
}

} // verus!
