//! Records as values: what the bindings of a complex type hold, how a record is written
//! as XML elements, and how the schedule of its type reads it back.

use vstd::prelude::*;

use crate::entries::{key_position, lemma_key_position};
use crate::gen::{
    complex_types, fields_resolve, keys, lemma_plan_exactly, names_record, normalized, plan_of,
    written_apart, BaseType, BaseTypeView, BindingPlan, BindingPlanView, DeserializeStep,
    DeserializeStepView, GenErrorView, RecordPlan, RecordPlanView, Source, ToElements,
};
use crate::naming::camel_case;
use crate::rpser::xml::{
    as_nodes, elements_view, find_named, is_character_data, is_named, lemma_element_node_view,
    lemma_named_position, lemma_named_position_is, lemma_nodes_view, markup_of, named_position,
    parse_instant, parsed_instant, text_of, Element, ElementView, Error, ErrorView, Node,
    NodeView,
};
use crate::text::{
    decimal, decimal_text, format_i64, is_real, lemma_decimal_text, parse_i64, reads_as_real,
    same_text, texts,
};
use crate::views::{each_view, view_result};
use crate::wsdl::{SimpleTypeView, TypeView, WsdlView};

verus! {

/// A value of a base type. A floating-point number and a point in time are held as they
/// are written.
#[derive(Debug, PartialEq, Eq)]
pub enum Value {
    Boolean(bool),
    Text(String),
    Integer(i64),
    Float(String),
    Instant(String),
    Record(Record),
}

/// What a field of a record holds: one value, the items of a sequence, or nothing.
#[derive(Debug, PartialEq, Eq)]
pub enum FieldValue {
    One(Value),
    Many(Vec<Value>),
    Absent,
}

/// A record: its fields in the order of its type, each under the name of its elements.
#[derive(Debug, PartialEq, Eq)]
pub struct Record {
    pub fields: Vec<(String, FieldValue)>,
}

/// A value as a mathematical value.
pub enum ValueView {
    Boolean(bool),
    Text(Seq<char>),
    Integer(i64),
    Float(Seq<char>),
    Instant(Seq<char>),
    Record(RecordView),
}

/// What a field holds, as a mathematical value.
pub enum FieldValueView {
    One(ValueView),
    Many(Seq<ValueView>),
    Absent,
}

/// A record as a mathematical value.
pub struct RecordView {
    pub fields: Seq<(Seq<char>, FieldValueView)>,
}

/// The values of a list as mathematical values.
pub open spec fn values_view(values: Seq<Value>) -> Seq<ValueView>
    decreases values,
{
    if values.len() == 0 {
        Seq::empty()
    } else {
        values_view(values.drop_last()).push(values.last().view())
    }
}

/// The fields of a list as mathematical values.
pub open spec fn fields_view(fields: Seq<(String, FieldValue)>) -> Seq<(Seq<char>, FieldValueView)>
    decreases fields,
{
    if fields.len() == 0 {
        Seq::empty()
    } else {
        fields_view(fields.drop_last()).push((fields.last().0@, fields.last().1.view()))
    }
}

impl View for Value {
    type V = ValueView;

    open spec fn view(&self) -> ValueView
        decreases self,
    {
        match self {
            Value::Boolean(b) => ValueView::Boolean(*b),
            Value::Text(t) => ValueView::Text(t@),
            Value::Integer(n) => ValueView::Integer(*n),
            Value::Float(t) => ValueView::Float(t@),
            Value::Instant(t) => ValueView::Instant(t@),
            Value::Record(r) => ValueView::Record(r.view()),
        }
    }
}

impl View for FieldValue {
    type V = FieldValueView;

    open spec fn view(&self) -> FieldValueView
        decreases self,
    {
        match self {
            FieldValue::One(v) => FieldValueView::One(v.view()),
            FieldValue::Many(items) => FieldValueView::Many(values_view(items@)),
            FieldValue::Absent => FieldValueView::Absent,
        }
    }
}

impl View for Record {
    type V = RecordView;

    open spec fn view(&self) -> RecordView
        decreases self,
    {
        RecordView { fields: fields_view(self.fields@) }
    }
}

/// The text that writes a value which holds no record.
pub open spec fn lexical(value: ValueView) -> Seq<char> {
    match value {
        ValueView::Boolean(b) => if b {
            "true"@
        } else {
            "false"@
        },
        ValueView::Text(t) => t,
        ValueView::Integer(n) => decimal_text(n as int),
        ValueView::Float(t) => t,
        ValueView::Instant(t) => t,
        ValueView::Record(_) => Seq::empty(),
    }
}

/// The element called `name` that writes a value: it holds the text of the value, or the
/// elements of the record as its children.
pub open spec fn written_value(name: Seq<char>, value: ValueView) -> ElementView
    decreases value, 0nat,
{
    match value {
        ValueView::Record(record) => ElementView {
            children: as_nodes(written_fields(record.fields, record.fields.len() as int)),
            ..ElementView::leaf(name)
        },
        _ => ElementView::leaf(name).with_text(lexical(value)),
    }
}

/// The elements called `name` that write the first `count` items of a sequence, one for
/// each item.
pub open spec fn written_items(name: Seq<char>, items: Seq<ValueView>, count: int) -> Seq<
    ElementView,
>
    decreases items, count,
{
    if count <= 0 || count > items.len() {
        Seq::empty()
    } else {
        written_items(name, items, count - 1).push(written_value(name, items[count - 1]))
    }
}

/// The elements that write a field under the name `name`: one for a value, one for each
/// item of a sequence, none for an absent field.
pub open spec fn written_field(name: Seq<char>, field: FieldValueView) -> Seq<ElementView>
    decreases field, 0nat,
{
    match field {
        FieldValueView::One(value) => seq![written_value(name, value)],
        FieldValueView::Many(items) => written_items(name, items, items.len() as int),
        FieldValueView::Absent => Seq::empty(),
    }
}

/// The elements that write the first `count` fields, in the order of the fields.
pub open spec fn written_fields(fields: Seq<(Seq<char>, FieldValueView)>, count: int) -> Seq<
    ElementView,
>
    decreases fields, count,
{
    if count <= 0 || count > fields.len() {
        Seq::empty()
    } else {
        written_fields(fields, count - 1) + written_field(fields[count - 1].0, fields[count - 1].1)
    }
}

/// The elements that write a record: those of its fields, in the order of the fields.
pub open spec fn written(record: RecordView) -> Seq<ElementView> {
    written_fields(record.fields, record.fields.len() as int)
}

/// Position of the first record called `name`, or the number of records where none is
/// called so.
pub open spec fn record_position(records: Seq<RecordPlanView>, name: Seq<char>) -> int
    decreases records.len(),
{
    if records.len() == 0 || records[0].name == name {
        0
    } else {
        1 + record_position(records.drop_first(), name)
    }
}

/// The first record of a plan that is called `name`.
pub open spec fn find_record(plan: BindingPlanView, name: Seq<char>) -> Option<RecordPlanView> {
    let at = record_position(plan.records, name);
    if at < plan.records.len() {
        Some(plan.records[at])
    } else {
        None
    }
}

/// The value of a base type that is no record, read from the text of an element. A
/// boolean is true where the text is `true`; an integer is read in decimal; a
/// floating-point number and a point in time are kept as they are written, once the text
/// is found to write one.
pub open spec fn read_simple(base: BaseTypeView, element: ElementView) -> Result<
    ValueView,
    ErrorView,
> {
    match element.text() {
        None => Err(ErrorView::Empty),
        Some(text) => match base {
            BaseTypeView::Boolean => Ok(ValueView::Boolean(text == "true"@)),
            BaseTypeView::Integer => match decimal(text, i64::MIN as int, i64::MAX as int) {
                Some(n) => Ok(ValueView::Integer(n as i64)),
                None => Err(ErrorView::ParseIntError { name: element.name }),
            },
            BaseTypeView::Float => if is_real(text) {
                Ok(ValueView::Float(text))
            } else {
                Err(ErrorView::ParseFloatError { name: element.name })
            },
            BaseTypeView::Instant => if parsed_instant(text) is Some {
                Ok(ValueView::Instant(text))
            } else {
                Err(ErrorView::ParseDateTimeError { name: element.name })
            },
            _ => Ok(ValueView::Text(text)),
        },
    }
}

/// The value of a base type, read from an element: a record from the child elements, by
/// the schedule of the record of that name in the plan; any other value from the text.
pub open spec fn read_value(plan: BindingPlanView, base: BaseTypeView, element: ElementView)
    -> Result<ValueView, ErrorView>
    decreases element, 3nat, 0nat,
{
    match base {
        BaseTypeView::Record(name) => match find_record(plan, name) {
            Some(record) => match read_steps_from(
                plan,
                record.deserialize_schedule,
                element,
                0,
                Seq::empty(),
            ) {
                Ok(fields) => Ok(ValueView::Record(RecordView { fields })),
                Err(error) => Err(error),
            },
            None => Err(
                ErrorView::ExpectedElementWithType {
                    name: element.name,
                    expected_type: name,
                    given: None,
                },
            ),
        },
        _ => read_simple(base, element),
    }
}

/// The items read from the child elements of `element` that stand at `from` or behind it,
/// added to `items` in document order. The first child that cannot be read decides the
/// error.
pub open spec fn read_items_from(
    plan: BindingPlanView,
    base: BaseTypeView,
    element: ElementView,
    from: int,
    items: Seq<ValueView>,
) -> Result<Seq<ValueView>, ErrorView>
    decreases element, 0nat, element.children.len() - from,
{
    if from < 0 || from >= element.children.len() {
        Ok(items)
    } else {
        match element.children[from] {
            NodeView::Element(child) => match read_value(plan, base, child) {
                Ok(value) => read_items_from(plan, base, element, from + 1, items.push(value)),
                Err(error) => Err(error),
            },
            _ => read_items_from(plan, base, element, from + 1, items),
        }
    }
}

/// What a step of a schedule reads from the element of a record: the first child element
/// of the step's name, or every child element for a sequence. A field that may be absent
/// is absent where this fails.
pub open spec fn read_field(plan: BindingPlanView, step: DeserializeStepView, element: ElementView)
    -> Result<FieldValueView, ErrorView>
    decreases element, 1nat, 0nat,
{
    let strict = match step.source {
        Source::Path => {
            let at = named_position(element.children, step.element);
            if 0 <= at < element.children.len() && element.children[at] is Element {
                match read_value(plan, step.base, element.children[at]->Element_0) {
                    Ok(value) => Ok(FieldValueView::One(value)),
                    Err(error) => Err(error),
                }
            } else {
                Err(ErrorView::NotFoundAtPath { path: seq![step.element] })
            }
        },
        Source::Children => match read_items_from(plan, step.base, element, 0, Seq::empty()) {
            Ok(items) => Ok(FieldValueView::Many(items)),
            Err(error) => Err(error),
        },
    };
    if step.absent_on_failure && strict is Err {
        Ok(FieldValueView::Absent)
    } else {
        strict
    }
}

/// The fields that the steps from `from` on read from the element of a record, added to
/// `fields` in the order of the steps. The first step that fails decides the error.
pub open spec fn read_steps_from(
    plan: BindingPlanView,
    steps: Seq<DeserializeStepView>,
    element: ElementView,
    from: int,
    fields: Seq<(Seq<char>, FieldValueView)>,
) -> Result<Seq<(Seq<char>, FieldValueView)>, ErrorView>
    decreases element, 2nat, steps.len() - from,
{
    if from < 0 || from >= steps.len() {
        Ok(fields)
    } else {
        match read_field(plan, steps[from], element) {
            Ok(field) => read_steps_from(
                plan,
                steps,
                element,
                from + 1,
                fields.push((steps[from].element, field)),
            ),
            Err(error) => Err(error),
        }
    }
}

/// The record called `name` that the schedule of its type reads from an element.
pub open spec fn read_record(plan: BindingPlanView, name: Seq<char>, element: ElementView)
    -> Result<RecordView, ErrorView> {
    match read_value(plan, BaseTypeView::Record(name), element) {
        Ok(value) => Ok(value->Record_0),
        Err(error) => Err(error),
    }
}

/// The views of a list of values are the views of its values, one for one.
pub proof fn lemma_values_view(values: Seq<Value>)
    ensures
        values_view(values).len() == values.len(),
        forall|i: int| 0 <= i < values.len() ==> (#[trigger] values_view(values)[i]) == values[i]@,
    decreases values.len(),
{
    if values.len() > 0 {
        lemma_values_view(values.drop_last());
        assert(values_view(values) == values_view(values.drop_last()).push(values.last().view()));
    } else {
        assert(values_view(values) == Seq::<ValueView>::empty());
    }
}

/// The views of a list of fields are the views of its fields, one for one.
pub proof fn lemma_fields_view(fields: Seq<(String, FieldValue)>)
    ensures
        fields_view(fields).len() == fields.len(),
        forall|i: int|
            0 <= i < fields.len() ==> (#[trigger] fields_view(fields)[i]) == (
                fields[i].0@,
                fields[i].1@,
            ),
    decreases fields.len(),
{
    if fields.len() > 0 {
        lemma_fields_view(fields.drop_last());
        assert(fields_view(fields) == fields_view(fields.drop_last()).push(
            (fields.last().0@, fields.last().1.view()),
        ));
    } else {
        assert(fields_view(fields) == Seq::<(Seq<char>, FieldValueView)>::empty());
    }
}

/// Adding a value behind a list adds its view behind the views.
pub proof fn lemma_values_view_push(values: Seq<Value>, value: Value)
    ensures
        values_view(values.push(value)) == values_view(values).push(value@),
{
    assert(values.push(value).drop_last() == values);
}

/// Adding a field behind a list adds its view behind the views.
pub proof fn lemma_fields_view_push(fields: Seq<(String, FieldValue)>, field: (String, FieldValue))
    ensures
        fields_view(fields.push(field)) == fields_view(fields).push((field.0@, field.1@)),
{
    assert(fields.push(field).drop_last() == fields);
}

/// What `record_position` finds: the first record of that name, or the end.
pub proof fn lemma_record_position(records: Seq<RecordPlanView>, name: Seq<char>)
    ensures
        0 <= record_position(records, name) <= records.len(),
        record_position(records, name) < records.len() ==> records[record_position(
            records,
            name,
        )].name == name,
        forall|i: int|
            0 <= i < record_position(records, name) ==> (#[trigger] records[i]).name != name,
    decreases records.len(),
{
    if records.len() == 0 || records[0].name == name {
    } else {
        let rest = records.drop_first();
        lemma_record_position(rest, name);
        assert forall|i: int| 0 <= i < record_position(records, name) implies (
        #[trigger] records[i]).name != name by {
            if i > 0 {
                assert(records[i] == rest[i - 1]);
            }
        }
    }
}

/// The first record of a plan that is called `name`.
fn record_called<'a>(plan: &'a BindingPlan, name: &str) -> (r: Option<&'a RecordPlan>)
    ensures
        match r {
            Some(record) => find_record(plan@, name@) == Some(record@),
            None => find_record(plan@, name@) is None,
        },
{
    let wanted = name.to_owned();
    let mut i: usize = 0;
    while i < plan.records.len() && plan.records[i].name != wanted
        invariant
            i <= plan.records.len(),
            wanted@ == name@,
            forall|j: int| 0 <= j < i ==> (#[trigger] plan.records@[j]).name@ != name@,
        decreases plan.records.len() - i,
    {
        i += 1;
    }
    proof {
        let records = plan@.records;
        lemma_record_position(records, name@);
        let at = record_position(records, name@);
        if at < i {
            assert(records[at] == plan.records@[at]@);
        }
        if i < plan.records.len() {
            assert(records[i as int] == plan.records@[i as int]@);
        }
    }
    if i < plan.records.len() {
        Some(&plan.records[i])
    } else {
        None
    }
}

/// Reads a value of a base type that is no record from the text of an element.
fn simple_value(base: &BaseType, element: &Element) -> (r: Result<Value, Error>)
    ensures
        view_result(r) == read_simple(base@, element@),
{
    let text = match element.get_text() {
        Some(text) => text,
        None => {
            return Err(Error::Empty);
        },
    };
    match base {
        BaseType::Boolean => Ok(Value::Boolean(same_text(text.as_str(), "true"))),
        BaseType::Integer => match parse_i64(text.as_str()) {
            Some(n) => Ok(Value::Integer(n)),
            None => Err(Error::ParseIntError { name: element.name.clone() }),
        },
        BaseType::Float => if reads_as_real(text.as_str()) {
            Ok(Value::Float(text))
        } else {
            Err(Error::ParseFloatError { name: element.name.clone() })
        },
        BaseType::Instant => match parse_instant(text.as_str()) {
            Ok(_) => Ok(Value::Instant(text)),
            Err(inner) => Err(Error::ParseDateTimeError { name: element.name.clone(), inner }),
        },
        _ => Ok(Value::Text(text)),
    }
}

/// Reads a value of a base type from an element.
fn value_of(plan: &BindingPlan, base: &BaseType, element: &Element) -> (r: Result<Value, Error>)
    ensures
        view_result(r) == read_value(plan@, base@, element@),
    decreases element, 3nat, 0nat,
{
    match base {
        BaseType::Record(name) => match record_called(plan, name.as_str()) {
            Some(record) => match steps_of(plan, &record.deserialize_schedule, element) {
                Ok(fields) => Ok(Value::Record(Record { fields })),
                Err(error) => Err(error),
            },
            None => Err(
                Error::ExpectedElementWithType {
                    name: element.name.clone(),
                    expected_type: name.clone(),
                    given: None,
                },
            ),
        },
        _ => simple_value(base, element),
    }
}

/// Reads the items of a sequence from the child elements of an element.
fn items_of(plan: &BindingPlan, base: &BaseType, element: &Element) -> (r: Result<
    Vec<Value>,
    Error,
>)
    ensures
        match r {
            Ok(items) => read_items_from(plan@, base@, element@, 0, Seq::empty()) == Ok::<
                _,
                ErrorView,
            >(values_view(items@)),
            Err(error) => read_items_from(plan@, base@, element@, 0, Seq::empty()) == Err::<
                Seq<ValueView>,
                _,
            >(error@),
        },
    decreases element, 0nat, 0nat,
{
    let mut items: Vec<Value> = Vec::new();
    let mut i: usize = 0;
    proof {
        lemma_nodes_view(element.children@);
    }
    while i < element.children.len()
        invariant
            i <= element.children.len(),
            element@.children.len() == element.children.len(),
            forall|j: int|
                0 <= j < element.children.len() ==> (#[trigger] element@.children[j])
                    == element.children[j]@,
            read_items_from(plan@, base@, element@, 0, Seq::empty()) == read_items_from(
                plan@,
                base@,
                element@,
                i as int,
                values_view(items@),
            ),
        decreases element.children.len() - i,
    {
        match &element.children[i] {
            Node::Element(child) => {
                proof {
                    lemma_element_node_view(*child);
                }
                match value_of(plan, base, child) {
                    Ok(value) => {
                        proof {
                            lemma_values_view_push(items@, value);
                        }
                        items.push(value);
                    },
                    Err(error) => {
                        return Err(error);
                    },
                }
            },
            _ => {},
        }
        i += 1;
    }
    Ok(items)
}

/// Reads what a step of a schedule reads from the element of a record.
fn field_of(plan: &BindingPlan, step: &DeserializeStep, element: &Element) -> (r: Result<
    FieldValue,
    Error,
>)
    ensures
        view_result(r) == read_field(plan@, step@, element@),
    decreases element, 1nat, 0nat,
{
    let strict = match step.source {
        Source::Path => {
            let at = find_named(&element.children, step.element.as_str());
            proof {
                lemma_nodes_view(element.children@);
            }
            if at < element.children.len() {
                match &element.children[at] {
                    Node::Element(child) => {
                        proof {
                            lemma_element_node_view(*child);
                        }
                        match value_of(plan, &step.base, child) {
                            Ok(value) => Ok(FieldValue::One(value)),
                            Err(error) => Err(error),
                        }
                    },
                    _ => Err(Error::Empty),
                }
            } else {
                let mut path: Vec<String> = Vec::new();
                path.push(step.element.clone());
                assert(texts(path@) =~= seq![step.element@]);
                Err(Error::NotFoundAtPath { path })
            }
        },
        Source::Children => match items_of(plan, &step.base, element) {
            Ok(items) => Ok(FieldValue::Many(items)),
            Err(error) => Err(error),
        },
    };
    if step.absent_on_failure && strict.is_err() {
        Ok(FieldValue::Absent)
    } else {
        strict
    }
}

/// Reads the fields of a record from its element, by the steps of its schedule.
fn steps_of(plan: &BindingPlan, steps: &Vec<DeserializeStep>, element: &Element) -> (r: Result<
    Vec<(String, FieldValue)>,
    Error,
>)
    ensures
        match r {
            Ok(fields) => read_steps_from(plan@, each_view(steps@), element@, 0, Seq::empty())
                == Ok::<_, ErrorView>(fields_view(fields@)),
            Err(error) => read_steps_from(plan@, each_view(steps@), element@, 0, Seq::empty())
                == Err::<Seq<(Seq<char>, FieldValueView)>, _>(error@),
        },
    decreases element, 2nat, 0nat,
{
    let mut fields: Vec<(String, FieldValue)> = Vec::new();
    let mut i: usize = 0;
    while i < steps.len()
        invariant
            i <= steps.len(),
            read_steps_from(plan@, each_view(steps@), element@, 0, Seq::empty())
                == read_steps_from(
                plan@,
                each_view(steps@),
                element@,
                i as int,
                fields_view(fields@),
            ),
        decreases steps.len() - i,
    {
        assert(each_view(steps@)[i as int] == steps@[i as int]@);
        match field_of(plan, &steps[i], element) {
            Ok(field) => {
                let entry = (steps[i].element.clone(), field);
                proof {
                    lemma_fields_view_push(fields@, entry);
                }
                fields.push(entry);
            },
            Err(error) => {
                return Err(error);
            },
        }
        i += 1;
    }
    Ok(fields)
}

/// The text that writes a value which holds no record.
fn lexical_form(value: &Value) -> (r: String)
    ensures
        r@ == lexical(value@),
{
    match value {
        Value::Boolean(b) => if *b {
            String::from_str("true")
        } else {
            String::from_str("false")
        },
        Value::Text(t) => t.clone(),
        Value::Integer(n) => format_i64(*n),
        Value::Float(t) => t.clone(),
        Value::Instant(t) => t.clone(),
        Value::Record(_) => String::new(),
    }
}

/// Writes a value as the element called `name`.
fn write_value(name: &str, value: &Value) -> (r: Element)
    ensures
        r@ == written_value(name@, value@),
    decreases value,
{
    match value {
        Value::Record(record) => {
            let written = write_fields(record);
            let r = Element::node(name).with_children(written);
            assert(r@.children =~= as_nodes(elements_view(written@)));
            r
        },
        _ => Element::node(name).with_text(lexical_form(value).as_str()),
    }
}

/// Writes the fields of a record as elements, in the order of the fields.
#[verifier::loop_isolation(false)]
fn write_fields(record: &Record) -> (r: Vec<Element>)
    ensures
        elements_view(r@) == written(record@),
    decreases record,
{
    let mut out: Vec<Element> = Vec::new();
    let ghost fields = record@.fields;
    proof {
        lemma_fields_view(record.fields@);
        assert(elements_view(out@) =~= written_fields(fields, 0));
    }
    let mut i: usize = 0;
    while i < record.fields.len()
        invariant
            i <= record.fields.len(),
            fields == record@.fields,
            fields.len() == record.fields.len(),
            forall|j: int|
                0 <= j < fields.len() ==> (#[trigger] fields[j]) == (
                    record.fields[j].0@,
                    record.fields[j].1@,
                ),
            elements_view(out@) == written_fields(fields, i as int),
        decreases record.fields.len() - i,
    {
        let name = &record.fields[i].0;
        let ghost before = elements_view(out@);
        assert(fields[i as int] == (name@, record.fields[i as int].1@));
        assert(written_fields(fields, i + 1) == before + written_field(
            name@,
            record.fields[i as int].1@,
        ));
        match &record.fields[i].1 {
            FieldValue::One(value) => {
                let element = write_value(name.as_str(), value);
                out.push(element);
                assert(elements_view(out@) =~= before + seq![written_value(name@, value@)]);
            },
            FieldValue::Many(items) => {
                let ghost views = values_view(items@);
                proof {
                    lemma_values_view(items@);
                    assert(before + written_items(name@, views, 0) =~= before);
                }
                let mut k: usize = 0;
                while k < items.len()
                    invariant
                        k <= items.len(),
                        views == values_view(items@),
                        views.len() == items.len(),
                        forall|j: int| 0 <= j < views.len() ==> (#[trigger] views[j]) == items[j]@,
                        elements_view(out@) == before + written_items(name@, views, k as int),
                    decreases items.len() - k,
                {
                    let element = write_value(name.as_str(), &items[k]);
                    let ghost sofar = elements_view(out@);
                    out.push(element);
                    assert(elements_view(out@) =~= sofar.push(element@));
                    assert(before + written_items(name@, views, k + 1) =~= (before
                        + written_items(name@, views, k as int)).push(element@));
                    k += 1;
                }
            },
            FieldValue::Absent => {
                assert(before + Seq::<ElementView>::empty() =~= before);
            },
        }
        i += 1;
    }
    out
}

impl ToElements for Record {
    /// The elements that write the record: those of its fields, in the order of the fields.
    fn to_elements(&self) -> (r: Vec<Element>)
        ensures
            elements_view(r@) == written(self@),
    {
        write_fields(self)
    }
}

impl Record {
    /// Reads the record called `name` from an element, by the schedule of its type.
    pub fn from_element(plan: &BindingPlan, name: &str, element: &Element) -> (r: Result<
        Record,
        Error,
    >)
        ensures
            view_result(r) == read_record(plan@, name@, element@),
    {
        match value_of(plan, &BaseType::Record(name.to_owned()), element) {
            Ok(Value::Record(record)) => Ok(record),
            Ok(_) => Ok(Record { fields: Vec::new() }),
            Err(error) => Err(error),
        }
    }
}

/// Whether no two steps of a schedule read elements of the same name.
pub open spec fn elements_apart(steps: Seq<DeserializeStepView>) -> bool {
    forall|i: int, j: int|
        0 <= i < j < steps.len() ==> (#[trigger] steps[i]).element != (#[trigger] steps[j]).element
}

/// Whether a value is one that its base type reads back from what writes it: it is of the
/// base type, and where it is a record, so are its fields by the schedule of the record.
pub open spec fn faithful_value(plan: BindingPlanView, base: BaseTypeView, value: ValueView) -> bool
    decreases value, 0nat,
{
    match value {
        ValueView::Boolean(_) => base is Boolean,
        ValueView::Text(_) => base is Text,
        ValueView::Integer(_) => base is Integer,
        ValueView::Float(text) => base is Float && is_real(text),
        ValueView::Instant(text) => base is Instant && parsed_instant(text) is Some,
        ValueView::Record(record) => {
            &&& base is Record
            &&& find_record(plan, base->Record_0) is Some
            &&& faithful_record(
                plan,
                find_record(plan, base->Record_0)->0.deserialize_schedule,
                record.fields,
            )
        },
    }
}

/// Whether the first `count` items of a sequence are faithful values of a base type.
pub open spec fn faithful_items(
    plan: BindingPlanView,
    base: BaseTypeView,
    items: Seq<ValueView>,
    count: int,
) -> bool
    decreases items, count,
{
    if count <= 0 || count > items.len() {
        true
    } else {
        faithful_items(plan, base, items, count - 1) && faithful_value(plan, base, items[count - 1])
    }
}

/// Whether a field is one that a step reads back from what writes a record of `total`
/// elements: it goes by the name of the step and is not absent; one value is read by path
/// and is faithful; the items of a sequence are read from every child, are faithful, and
/// are all that the record writes.
pub open spec fn faithful_field(
    plan: BindingPlanView,
    step: DeserializeStepView,
    name: Seq<char>,
    field: FieldValueView,
    total: int,
) -> bool
    decreases field, 0nat,
{
    &&& name == step.element
    &&& match field {
        FieldValueView::One(value) => step.source is Path && faithful_value(
            plan,
            step.base,
            value,
        ),
        FieldValueView::Many(items) => {
            &&& step.source is Children
            &&& total == items.len()
            &&& faithful_items(plan, step.base, items, items.len() as int)
        },
        FieldValueView::Absent => false,
    }
}

/// Whether the first `count` fields are faithful by the steps of a schedule.
pub open spec fn faithful_fields(
    plan: BindingPlanView,
    steps: Seq<DeserializeStepView>,
    fields: Seq<(Seq<char>, FieldValueView)>,
    count: int,
) -> bool
    decreases fields, count,
{
    if count <= 0 || count > fields.len() || count > steps.len() {
        true
    } else {
        &&& faithful_fields(plan, steps, fields, count - 1)
        &&& faithful_field(
            plan,
            steps[count - 1],
            fields[count - 1].0,
            fields[count - 1].1,
            written_fields(fields, fields.len() as int).len() as int,
        )
    }
}

/// Whether the fields of a record are those that a schedule reads back from what writes
/// the record: a field for each step, each faithful, under names that are all apart.
pub open spec fn faithful_record(
    plan: BindingPlanView,
    steps: Seq<DeserializeStepView>,
    fields: Seq<(Seq<char>, FieldValueView)>,
) -> bool
    decreases fields, fields.len() + 1,
{
    &&& fields.len() == steps.len()
    &&& elements_apart(steps)
    &&& faithful_fields(plan, steps, fields, fields.len() as int)
}

/// Each of the first `count` fields is faithful where the first `count` fields are.
proof fn lemma_faithful_fields(
    plan: BindingPlanView,
    steps: Seq<DeserializeStepView>,
    fields: Seq<(Seq<char>, FieldValueView)>,
    count: int,
    i: int,
)
    requires
        0 <= i < count <= fields.len(),
        count <= steps.len(),
        faithful_fields(plan, steps, fields, count),
    ensures
        faithful_field(
            plan,
            steps[i],
            fields[i].0,
            fields[i].1,
            written_fields(fields, fields.len() as int).len() as int,
        ),
    decreases count,
{
    if i < count - 1 {
        lemma_faithful_fields(plan, steps, fields, count - 1, i);
    }
}

/// Each of the first `count` items is faithful where the first `count` items are.
proof fn lemma_faithful_items(
    plan: BindingPlanView,
    base: BaseTypeView,
    items: Seq<ValueView>,
    count: int,
    i: int,
)
    requires
        0 <= i < count <= items.len(),
        faithful_items(plan, base, items, count),
    ensures
        faithful_value(plan, base, items[i]),
    decreases count,
{
    if i < count - 1 {
        lemma_faithful_items(plan, base, items, count - 1, i);
    }
}

/// The elements of the first `count` fields hold those of any two of the fields.
proof fn lemma_written_holds_two(
    fields: Seq<(Seq<char>, FieldValueView)>,
    count: int,
    i: int,
    j: int,
)
    requires
        0 <= i < j < count <= fields.len(),
    ensures
        written_fields(fields, count).len() >= written_field(fields[i].0, fields[i].1).len()
            + written_field(fields[j].0, fields[j].1).len(),
    decreases count,
{
    if j < count - 1 {
        lemma_written_holds_two(fields, count - 1, i, j);
    } else {
        lemma_written_holds_one(fields, count - 1, i);
    }
}

/// The elements of the first `count` fields hold those of any one of the fields.
proof fn lemma_written_holds_one(fields: Seq<(Seq<char>, FieldValueView)>, count: int, i: int)
    requires
        0 <= i < count <= fields.len(),
    ensures
        written_fields(fields, count).len() >= written_field(fields[i].0, fields[i].1).len(),
    decreases count,
{
    if i < count - 1 {
        lemma_written_holds_one(fields, count - 1, i);
    }
}

/// Where one field writes as many elements as the first `count` fields together, they are
/// the elements of that field.
proof fn lemma_written_by_one(fields: Seq<(Seq<char>, FieldValueView)>, count: int, i: int)
    requires
        0 <= i < count <= fields.len(),
        written_fields(fields, count).len() == written_field(fields[i].0, fields[i].1).len(),
    ensures
        written_fields(fields, count) == written_field(fields[i].0, fields[i].1),
    decreases count,
{
    let last = written_field(fields[count - 1].0, fields[count - 1].1);
    if i < count - 1 {
        lemma_written_holds_one(fields, count - 1, i);
        lemma_written_by_one(fields, count - 1, i);
        assert(written_fields(fields, count) =~= written_fields(fields, count - 1));
    } else {
        assert(written_fields(fields, count) =~= last);
    }
}

/// Where every one of the first `count` fields holds one value, each field writes one
/// element, in the place of the field.
proof fn lemma_written_one_each(fields: Seq<(Seq<char>, FieldValueView)>, count: int)
    requires
        0 <= count <= fields.len(),
        forall|i: int| 0 <= i < count ==> (#[trigger] fields[i]).1 is One,
    ensures
        written_fields(fields, count).len() == count,
        forall|i: int|
            0 <= i < count ==> (#[trigger] written_fields(fields, count)[i]) == written_value(
                fields[i].0,
                fields[i].1->One_0,
            ),
    decreases count,
{
    if count > 0 {
        lemma_written_one_each(fields, count - 1);
        assert(fields[count - 1].1 is One);
        let last = written_field(fields[count - 1].0, fields[count - 1].1);
        assert(last =~= seq![written_value(fields[count - 1].0, fields[count - 1].1->One_0)]);
        assert(written_fields(fields, count) == written_fields(fields, count - 1) + last);
    } else {
        assert(written_fields(fields, count) == Seq::<ElementView>::empty());
    }
}

/// The items that a sequence writes: one element for each item, in order.
proof fn lemma_written_items(name: Seq<char>, items: Seq<ValueView>, count: int)
    requires
        0 <= count <= items.len(),
    ensures
        written_items(name, items, count).len() == count,
        forall|i: int|
            0 <= i < count ==> (#[trigger] written_items(name, items, count)[i]) == written_value(
                name,
                items[i],
            ),
    decreases count,
{
    if count > 0 {
        lemma_written_items(name, items, count - 1);
    }
}

/// An element that is written for a value goes by the name that it was written under.
proof fn lemma_written_name(name: Seq<char>, value: ValueView)
    ensures
        written_value(name, value).name == name,
{
}

/// The text of an element that writes a value which holds no record is the text of the
/// value.
proof fn lemma_written_text(name: Seq<char>, value: ValueView)
    requires
        !(value is Record),
    ensures
        written_value(name, value).text() == Some(lexical(value)),
{
    let element = written_value(name, value);
    let nodes = element.children;
    assert(markup_of(Seq::<NodeView>::empty()) =~= Seq::<NodeView>::empty());
    assert(nodes =~= seq![NodeView::Text(lexical(value))]);
    assert(is_character_data(nodes[0]));
    assert(nodes.drop_last() =~= Seq::<NodeView>::empty());
    assert(text_of(nodes.drop_last()) =~= Seq::<char>::empty());
    assert(text_of(nodes) =~= lexical(value));
}

/// A faithful value is read back from the element that writes it.
pub proof fn lemma_value_round_trip(
    plan: BindingPlanView,
    base: BaseTypeView,
    name: Seq<char>,
    value: ValueView,
)
    requires
        faithful_value(plan, base, value),
    ensures
        read_value(plan, base, written_value(name, value)) == Ok::<ValueView, ErrorView>(value),
    decreases value, 0nat,
{
    let element = written_value(name, value);
    match value {
        ValueView::Record(record) => {
            let steps = find_record(plan, base->Record_0)->0.deserialize_schedule;
            lemma_steps_round_trip(plan, steps, record.fields, element, 0);
            assert(record.fields.take(0) =~= Seq::empty());
        },
        ValueView::Boolean(b) => {
            lemma_written_text(name, value);
            reveal_strlit("true");
            reveal_strlit("false");
            assert("false"@.len() != "true"@.len());
        },
        ValueView::Integer(n) => {
            lemma_written_text(name, value);
            lemma_decimal_text(n as int, i64::MIN as int, i64::MAX as int);
        },
        _ => {
            lemma_written_text(name, value);
        },
    }
}

/// The items of a faithful sequence are read back from the children of an element that
/// holds what writes them and nothing else.
pub proof fn lemma_items_round_trip(
    plan: BindingPlanView,
    base: BaseTypeView,
    name: Seq<char>,
    items: Seq<ValueView>,
    element: ElementView,
    from: int,
)
    requires
        0 <= from <= items.len(),
        element.children == as_nodes(written_items(name, items, items.len() as int)),
        faithful_items(plan, base, items, items.len() as int),
    ensures
        read_items_from(plan, base, element, from, items.take(from)) == Ok::<
            Seq<ValueView>,
            ErrorView,
        >(items),
    decreases items, items.len() - from,
{
    lemma_written_items(name, items, items.len() as int);
    if from < items.len() {
        lemma_faithful_items(plan, base, items, items.len() as int, from);
        lemma_value_round_trip(plan, base, name, items[from]);
        assert(element.children[from] == NodeView::Element(written_value(name, items[from])));
        assert(items.take(from).push(items[from]) =~= items.take(from + 1));
        lemma_items_round_trip(plan, base, name, items, element, from + 1);
    } else {
        assert(items.take(from) =~= items);
    }
}

/// A faithful field is read back by its step from an element that holds what writes the
/// record and nothing else.
pub proof fn lemma_field_round_trip(
    plan: BindingPlanView,
    steps: Seq<DeserializeStepView>,
    fields: Seq<(Seq<char>, FieldValueView)>,
    element: ElementView,
    i: int,
)
    requires
        0 <= i < fields.len(),
        faithful_record(plan, steps, fields),
        element.children == as_nodes(written_fields(fields, fields.len() as int)),
    ensures
        read_field(plan, steps[i], element) == Ok::<FieldValueView, ErrorView>(fields[i].1),
    decreases fields, 1nat,
{
    let count = fields.len() as int;
    let all = written_fields(fields, count);
    lemma_faithful_fields(plan, steps, fields, count, i);
    match fields[i].1 {
        FieldValueView::One(value) => {
            assert forall|k: int| 0 <= k < count implies (#[trigger] fields[k]).1 is One by {
                lemma_faithful_fields(plan, steps, fields, count, k);
                if fields[k].1 is Many {
                    if k < i {
                        lemma_written_holds_two(fields, count, k, i);
                    } else {
                        lemma_written_holds_two(fields, count, i, k);
                    }
                    lemma_written_items(
                        fields[k].0,
                        fields[k].1->Many_0,
                        fields[k].1->Many_0.len() as int,
                    );
                }
            }
            lemma_written_one_each(fields, count);
            assert forall|k: int| 0 <= k < i implies !is_named(
                #[trigger] element.children[k],
                steps[i].element,
            ) by {
                lemma_faithful_fields(plan, steps, fields, count, k);
                assert(element.children[k] == NodeView::Element(all[k]));
            }
            assert(element.children[i] == NodeView::Element(all[i]));
            lemma_named_position_is(element.children, steps[i].element, i);
            lemma_value_round_trip(plan, steps[i].base, fields[i].0, value);
        },
        FieldValueView::Many(items) => {
            lemma_written_items(fields[i].0, items, items.len() as int);
            lemma_written_by_one(fields, count, i);
            lemma_items_round_trip(plan, steps[i].base, fields[i].0, items, element, 0);
            assert(items.take(0) =~= Seq::empty());
        },
        FieldValueView::Absent => {},
    }
}

/// The fields of a faithful record are read back by the steps of its schedule from an
/// element that holds what writes the record and nothing else.
pub proof fn lemma_steps_round_trip(
    plan: BindingPlanView,
    steps: Seq<DeserializeStepView>,
    fields: Seq<(Seq<char>, FieldValueView)>,
    element: ElementView,
    from: int,
)
    requires
        0 <= from <= fields.len(),
        faithful_record(plan, steps, fields),
        element.children == as_nodes(written_fields(fields, fields.len() as int)),
    ensures
        read_steps_from(plan, steps, element, from, fields.take(from)) == Ok::<
            Seq<(Seq<char>, FieldValueView)>,
            ErrorView,
        >(fields),
    decreases fields, 2nat + fields.len() - from,
{
    if from < fields.len() {
        lemma_field_round_trip(plan, steps, fields, element, from);
        lemma_faithful_fields(plan, steps, fields, fields.len() as int, from);
        assert(fields.take(from).push((steps[from].element, fields[from].1)) =~= fields.take(
            from + 1,
        ));
        lemma_steps_round_trip(plan, steps, fields, element, from + 1);
    } else {
        assert(fields.take(from) =~= fields);
    }
}

/// A record is read back from what writes it: where the record called `name` is faithful,
/// an element whose children are the elements of the record, and nothing else, reads as
/// the record.
pub proof fn lemma_round_trip(
    plan: BindingPlanView,
    name: Seq<char>,
    record: RecordView,
    root: ElementView,
)
    requires
        faithful_value(plan, BaseTypeView::Record(name), ValueView::Record(record)),
        root.children == as_nodes(written(record)),
    ensures
        read_record(plan, name, root) == Ok::<RecordView, ErrorView>(record),
{
    let steps = find_record(plan, name)->0.deserialize_schedule;
    lemma_steps_round_trip(plan, steps, record.fields, root, 0);
    assert(record.fields.take(0) =~= Seq::empty());
}

/// A field that holds one value and may be absent is never an error: it is absent where
/// the element of its record holds no child of its name, the value of the first such child
/// where that is read, and absent where that is not read.
pub proof fn lemma_optional_field(
    plan: BindingPlanView,
    step: DeserializeStepView,
    element: ElementView,
)
    requires
        step.absent_on_failure,
        step.source is Path,
    ensures
        read_field(plan, step, element) is Ok,
        named_position(element.children, step.element) >= element.children.len() ==> read_field(
            plan,
            step,
            element,
        ) == Ok::<FieldValueView, ErrorView>(FieldValueView::Absent),
        named_position(element.children, step.element) < element.children.len() ==> {
            let child = element.children[named_position(
                element.children,
                step.element,
            )]->Element_0;
            read_field(plan, step, element) == Ok::<FieldValueView, ErrorView>(
                match read_value(plan, step.base, child) {
                    Ok(value) => FieldValueView::One(value),
                    Err(_) => FieldValueView::Absent,
                },
            )
        },
{
    lemma_named_position(element.children, step.element);
}

/// A field that holds one value and may not be absent is an error where the element of its
/// record holds no child of its name, and where the first such child is not read; the
/// error is the one that reading the child gives.
pub proof fn lemma_required_field(
    plan: BindingPlanView,
    step: DeserializeStepView,
    element: ElementView,
)
    requires
        !step.absent_on_failure,
        step.source is Path,
    ensures
        named_position(element.children, step.element) >= element.children.len() ==> read_field(
            plan,
            step,
            element,
        ) == Err::<FieldValueView, ErrorView>(
            ErrorView::NotFoundAtPath { path: seq![step.element] },
        ),
        named_position(element.children, step.element) < element.children.len() ==> {
            let child = element.children[named_position(
                element.children,
                step.element,
            )]->Element_0;
            read_field(plan, step, element) == match read_value(plan, step.base, child) {
                Ok(value) => Ok::<FieldValueView, ErrorView>(FieldValueView::One(value)),
                Err(error) => Err::<FieldValueView, ErrorView>(error),
            }
        },
{
    lemma_named_position(element.children, step.element);
}

/// A sequence is read back in its order, whatever the number of its items: where the one
/// field of the record called `name` is a sequence of faithful items, an element whose
/// children are the elements of the items, and nothing else, reads as the record.
pub proof fn lemma_sequence_round_trip(
    plan: BindingPlanView,
    name: Seq<char>,
    items: Seq<ValueView>,
    root: ElementView,
)
    requires
        find_record(plan, name) is Some,
        find_record(plan, name)->0.deserialize_schedule.len() == 1,
        find_record(plan, name)->0.deserialize_schedule[0].source is Children,
        faithful_items(
            plan,
            find_record(plan, name)->0.deserialize_schedule[0].base,
            items,
            items.len() as int,
        ),
        root.children == as_nodes(
            written_items(
                find_record(plan, name)->0.deserialize_schedule[0].element,
                items,
                items.len() as int,
            ),
        ),
    ensures
        read_record(plan, name, root) == Ok::<RecordView, ErrorView>(
            RecordView {
                fields: seq![
                    (
                        find_record(plan, name)->0.deserialize_schedule[0].element,
                        FieldValueView::Many(items),
                    ),
                ],
            },
        ),
{
    let step = find_record(plan, name)->0.deserialize_schedule[0];
    let fields = seq![(step.element, FieldValueView::Many(items))];
    let record = RecordView { fields };
    lemma_written_items(step.element, items, items.len() as int);
    assert(written_fields(fields, 0) == Seq::<ElementView>::empty());
    assert(written_field(fields[0].0, fields[0].1) == written_items(
        step.element,
        items,
        items.len() as int,
    ));
    assert(written_fields(fields, 1) == written_fields(fields, 0) + written_field(
        fields[0].0,
        fields[0].1,
    ));
    assert(written_fields(fields, 1) =~= written_items(step.element, items, items.len() as int));
    assert(faithful_fields(plan, find_record(plan, name)->0.deserialize_schedule, fields, 0));
    lemma_round_trip(plan, name, record, root);
}

/// Whether each record that a field of a plan holds is a record of the plan.
pub open spec fn closed(plan: BindingPlanView) -> bool {
    forall|r: int, s: int|
        0 <= r < plan.records.len() && 0 <= s < plan.records[r].deserialize_schedule.len()
            ==> match (#[trigger] plan.records[r].deserialize_schedule[s]).base {
            BaseTypeView::Record(name) => find_record(plan, name) is Some,
            _ => true,
        }
}

/// Each complex type among the types is one of `complex_types`.
proof fn lemma_complex_type_is_kept(types: Seq<(Seq<char>, TypeView)>, i: int)
    requires
        0 <= i < types.len(),
        types[i].1 is Complex,
    ensures
        exists|k: int|
            0 <= k < complex_types(types).len() && #[trigger] complex_types(types)[k] == (
                types[i].0,
                types[i].1->Complex_0,
            ),
    decreases types.len(),
{
    let front = types.drop_last();
    if i < types.len() - 1 {
        lemma_complex_type_is_kept(front, i);
        let k = choose|k: int|
            0 <= k < complex_types(front).len() && #[trigger] complex_types(front)[k] == (
                front[i].0,
                front[i].1->Complex_0,
            );
        assert(complex_types(types)[k] == complex_types(front)[k]);
    } else {
        let k = complex_types(front).len() as int;
        assert(complex_types(types)[k] == (types[i].0, types[i].1->Complex_0));
    }
}

/// Each of `complex_types` is a complex type among the types.
proof fn lemma_kept_is_complex_type(types: Seq<(Seq<char>, TypeView)>, k: int)
    requires
        0 <= k < complex_types(types).len(),
    ensures
        exists|i: int|
            0 <= i < types.len() && (#[trigger] types[i]).1 is Complex && complex_types(types)[k]
                == (types[i].0, types[i].1->Complex_0),
    decreases types.len(),
{
    let front = types.drop_last();
    if k < complex_types(front).len() {
        lemma_kept_is_complex_type(front, k);
        let i = choose|i: int|
            0 <= i < front.len() && (#[trigger] front[i]).1 is Complex && complex_types(front)[k]
                == (front[i].0, front[i].1->Complex_0);
        assert(types[i] == front[i]);
        assert(complex_types(types)[k] == complex_types(front)[k]);
    } else {
        assert(types[types.len() - 1].1 is Complex);
    }
}

/// The bindings that are planned for a model are closed: each record that a field holds is
/// a record of the plan.
pub proof fn lemma_plan_closed(model: WsdlView, plan: BindingPlanView)
    requires
        plan_of(model) == Ok::<BindingPlanView, GenErrorView>(plan),
    ensures
        closed(plan),
{
    lemma_plan_exactly(model);
    let types = model.types;
    assert forall|r: int, s: int|
        0 <= r < plan.records.len() && 0 <= s < plan.records[r].deserialize_schedule.len()
            implies match (#[trigger] plan.records[r].deserialize_schedule[s]).base {
        BaseTypeView::Record(name) => find_record(plan, name) is Some,
        _ => true,
    } by {
        lemma_kept_is_complex_type(types, r);
        let t = choose|t: int|
            0 <= t < types.len() && (#[trigger] types[t]).1 is Complex && complex_types(types)[r]
                == (types[t].0, types[t].1->Complex_0);
        let fields = types[t].1->Complex_0.fields;
        assert(fields_resolve(types, fields));
        match fields[s].1.1 {
            SimpleTypeView::Complex(name) => {
                assert(names_record(types, name));
                lemma_key_position(types, name);
                let i = key_position(types, name);
                lemma_complex_type_is_kept(types, i);
                let k = choose|k: int|
                    0 <= k < complex_types(types).len() && #[trigger] complex_types(types)[k] == (
                        types[i].0,
                        types[i].1->Complex_0,
                    );
                assert(plan.records[k].name == camel_case(name));
                lemma_record_position(plan.records, camel_case(name));
            },
            _ => {},
        }
    }
}

/// In the bindings that are planned for a model, no two steps of a schedule read elements
/// of the same name.
pub proof fn lemma_plan_elements_apart(model: WsdlView, plan: BindingPlanView, r: int)
    requires
        plan_of(model) == Ok::<BindingPlanView, GenErrorView>(plan),
        0 <= r < plan.records.len(),
    ensures
        elements_apart(plan.records[r].deserialize_schedule),
{
    lemma_plan_exactly(model);
    let types = model.types;
    lemma_kept_is_complex_type(types, r);
    let t = choose|t: int|
        0 <= t < types.len() && (#[trigger] types[t]).1 is Complex && complex_types(types)[r] == (
            types[t].0,
            types[t].1->Complex_0,
        );
    let fields = types[t].1->Complex_0.fields;
    let steps = plan.records[r].deserialize_schedule;
    assert(written_apart(keys(fields), false));
    assert forall|i: int, j: int| 0 <= i < j < steps.len() implies (#[trigger] steps[i]).element != (
    #[trigger] steps[j]).element by {
        assert(normalized(keys(fields), false)[i] != normalized(keys(fields), false)[j]);
    }
}

} // verus!
