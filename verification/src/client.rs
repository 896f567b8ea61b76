//! Calls of the operations of a binding plan with records: the request that a call sends,
//! and what the response gives by the shape of the operation.

use vstd::prelude::*;
use vstd::string::StringSliceAdditionalSpecFns;

use crate::error::FailureView;
use crate::gen::{
    BindingPlan, BindingPlanView, FaultUnionView, OpPlan, OpPlanView, Shape, ToElements,
    WrapperPlanView,
};
use crate::http::{request_of, response_body};
use crate::record::{read_record, written, Record, RecordView};
use crate::rpser::document::{document_text, parsed_tree};
use crate::rpser::xml::{Element, ElementView};
use crate::rpser::{envelope, read_response, ResponseView, RpcErrorView};
use crate::text::texts;
use crate::views::view_result;
use crate::Error;

verus! {

/// What a call gives.
#[derive(Debug, PartialEq, Eq)]
pub enum Answer {
    /// The request was sent; the operation has no answer.
    Done,
    /// The output of the operation.
    Output(Record),
    /// A declared fault of the operation: the name of the fault message, and the fault.
    Fault { name: String, fault: Record },
}

/// What a call gives, as a mathematical value.
pub enum AnswerView {
    Done,
    Output(RecordView),
    Fault { name: Seq<char>, fault: RecordView },
}

impl View for Answer {
    type V = AnswerView;

    open spec fn view(&self) -> AnswerView {
        match self {
            Answer::Done => AnswerView::Done,
            Answer::Output(record) => AnswerView::Output(record@),
            Answer::Fault { name, fault } => AnswerView::Fault { name: name@, fault: fault@ },
        }
    }
}

/// Position of the first wrapper called `name`, or the number of wrappers where none is
/// called so.
pub open spec fn wrapper_position(wrappers: Seq<WrapperPlanView>, name: Seq<char>) -> int
    decreases wrappers.len(),
{
    if wrappers.len() == 0 || wrappers[0].name == name {
        0
    } else {
        1 + wrapper_position(wrappers.drop_first(), name)
    }
}

/// The record that a message wraps: the inner record of the first wrapper of that name, or
/// the name of the message itself where the plan has no such wrapper.
pub open spec fn wrapped_record(plan: BindingPlanView, message: Seq<char>) -> Seq<char> {
    let at = wrapper_position(plan.wrappers, message);
    if at < plan.wrappers.len() {
        plan.wrappers[at].inner
    } else {
        message
    }
}

/// The first of the fault messages from `from` on whose record the body reads as, with
/// that record.
pub open spec fn first_fault_from(
    plan: BindingPlanView,
    faults: Seq<Seq<char>>,
    body: ElementView,
    from: int,
) -> Option<(Seq<char>, RecordView)>
    decreases faults.len() - from,
{
    if from < 0 || from >= faults.len() {
        None
    } else {
        match read_record(plan, wrapped_record(plan, faults[from]), body) {
            Ok(fault) => Some((faults[from], fault)),
            Err(_) => first_fault_from(plan, faults, body, from + 1),
        }
    }
}

/// Position of the first fault union called `name`, or the number of unions where none is
/// called so.
pub open spec fn union_position(unions: Seq<FaultUnionView>, name: Seq<char>) -> int
    decreases unions.len(),
{
    if unions.len() == 0 || unions[0].name == name {
        0
    } else {
        1 + union_position(unions.drop_first(), name)
    }
}

/// The fault messages that an operation declares: the variants of its fault union in the
/// plan, in their order; none where the operation or the plan has no such union.
pub open spec fn declared_faults(plan: BindingPlanView, operation: OpPlanView) -> Seq<Seq<char>> {
    match operation.faults {
        Some(name) => {
            let at = union_position(plan.fault_unions, name);
            if at < plan.fault_unions.len() {
                plan.fault_unions[at].variants
            } else {
                Seq::empty()
            }
        },
        None => Seq::empty(),
    }
}

/// What the body of a response gives by the shape of an operation: the output that the
/// body reads as; else, for an operation with faults, the first declared fault that it
/// reads as; else the error of reading the output.
pub open spec fn answered_by(plan: BindingPlanView, operation: OpPlanView, body: ElementView)
    -> Result<AnswerView, FailureView> {
    let output = match operation.output {
        Some(name) => name,
        None => Seq::empty(),
    };
    match read_record(plan, wrapped_record(plan, output), body) {
        Ok(record) => Ok(AnswerView::Output(record)),
        Err(error) => match operation.shape {
            Shape::RequestResponseWithFaults => match first_fault_from(
                plan,
                declared_faults(plan, operation),
                body,
                0,
            ) {
                Some((name, fault)) => Ok(AnswerView::Fault { name, fault }),
                None => Err(FailureView::Rpser(error)),
            },
            _ => Err(FailureView::Rpser(error)),
        },
    }
}

/// What a response gives by the shape of an operation, given what the envelope carries. An
/// operation without an answer is done whatever the response; an operation with faults and
/// without an answer has no binding.
pub open spec fn answered(
    plan: BindingPlanView,
    operation: OpPlanView,
    carried: Result<ResponseView, RpcErrorView>,
) -> Result<AnswerView, FailureView> {
    match operation.shape {
        Shape::OneWay => Ok(AnswerView::Done),
        Shape::Unimplemented => Err(FailureView::Unimplemented),
        _ => match carried {
            Ok(response) => answered_by(plan, operation, response.body),
            Err(error) => Err(FailureView::Rpc(error)),
        },
    }
}

/// What `wrapper_position` finds: the first wrapper of that name, or the end.
proof fn lemma_wrapper_position(wrappers: Seq<WrapperPlanView>, name: Seq<char>)
    ensures
        0 <= wrapper_position(wrappers, name) <= wrappers.len(),
        wrapper_position(wrappers, name) < wrappers.len() ==> wrappers[wrapper_position(
            wrappers,
            name,
        )].name == name,
        forall|i: int|
            0 <= i < wrapper_position(wrappers, name) ==> (#[trigger] wrappers[i]).name != name,
    decreases wrappers.len(),
{
    if wrappers.len() == 0 || wrappers[0].name == name {
    } else {
        let rest = wrappers.drop_first();
        lemma_wrapper_position(rest, name);
        assert forall|i: int| 0 <= i < wrapper_position(wrappers, name) implies (
        #[trigger] wrappers[i]).name != name by {
            if i > 0 {
                assert(wrappers[i] == rest[i - 1]);
            }
        }
    }
}

/// What `union_position` finds: the first fault union of that name, or the end.
proof fn lemma_union_position(unions: Seq<FaultUnionView>, name: Seq<char>)
    ensures
        0 <= union_position(unions, name) <= unions.len(),
        union_position(unions, name) < unions.len() ==> unions[union_position(unions, name)].name
            == name,
        forall|i: int| 0 <= i < union_position(unions, name) ==> (#[trigger] unions[i]).name != name,
    decreases unions.len(),
{
    if unions.len() == 0 || unions[0].name == name {
    } else {
        let rest = unions.drop_first();
        lemma_union_position(rest, name);
        assert forall|i: int| 0 <= i < union_position(unions, name) implies (
        #[trigger] unions[i]).name != name by {
            if i > 0 {
                assert(unions[i] == rest[i - 1]);
            }
        }
    }
}

/// The record that a message wraps.
fn record_wrapped(plan: &BindingPlan, message: &str) -> (r: String)
    ensures
        r@ == wrapped_record(plan@, message@),
{
    let wanted = message.to_owned();
    let mut i: usize = 0;
    while i < plan.wrappers.len() && plan.wrappers[i].name != wanted
        invariant
            i <= plan.wrappers.len(),
            wanted@ == message@,
            forall|j: int| 0 <= j < i ==> (#[trigger] plan.wrappers@[j]).name@ != message@,
        decreases plan.wrappers.len() - i,
    {
        i += 1;
    }
    proof {
        let wrappers = plan@.wrappers;
        lemma_wrapper_position(wrappers, message@);
        let at = wrapper_position(wrappers, message@);
        if at < i {
            assert(wrappers[at] == plan.wrappers@[at]@);
        }
        if i < plan.wrappers.len() {
            assert(wrappers[i as int] == plan.wrappers@[i as int]@);
        }
    }
    if i < plan.wrappers.len() {
        plan.wrappers[i].inner.clone()
    } else {
        wanted
    }
}

/// The first declared fault that the body reads as.
fn first_fault(plan: &BindingPlan, faults: &Vec<String>, body: &Element) -> (r: Option<
    (String, Record),
>)
    ensures
        match r {
            Some((name, fault)) => first_fault_from(plan@, texts(faults@), body@, 0)
                == Some((name@, fault@)),
            None => first_fault_from(plan@, texts(faults@), body@, 0) is None,
        },
{
    let ghost names = texts(faults@);
    let mut i: usize = 0;
    while i < faults.len()
        invariant
            i <= faults.len(),
            names == texts(faults@),
            first_fault_from(plan@, names, body@, 0) == first_fault_from(
                plan@,
                names,
                body@,
                i as int,
            ),
        decreases faults.len() - i,
    {
        assert(names[i as int] == faults@[i as int]@);
        let inner = record_wrapped(plan, faults[i].as_str());
        match Record::from_element(plan, inner.as_str(), body) {
            Ok(fault) => {
                return Some((faults[i].clone(), fault));
            },
            Err(_) => {},
        }
        i += 1;
    }
    None
}

/// The first declared fault of an operation that the body reads as.
fn declared_fault(plan: &BindingPlan, operation: &OpPlan, body: &Element) -> (r: Option<
    (String, Record),
>)
    ensures
        match r {
            Some((name, fault)) => first_fault_from(
                plan@,
                declared_faults(plan@, operation@),
                body@,
                0,
            ) == Some((name@, fault@)),
            None => first_fault_from(plan@, declared_faults(plan@, operation@), body@, 0) is None,
        },
{
    let union = match &operation.faults {
        Some(union) => union,
        None => {
            return None;
        },
    };
    let mut i: usize = 0;
    while i < plan.fault_unions.len() && plan.fault_unions[i].name != *union
        invariant
            i <= plan.fault_unions.len(),
            forall|j: int| 0 <= j < i ==> (#[trigger] plan.fault_unions@[j]).name@ != union@,
        decreases plan.fault_unions.len() - i,
    {
        i += 1;
    }
    proof {
        let unions = plan@.fault_unions;
        lemma_union_position(unions, union@);
        let at = union_position(unions, union@);
        if at < i {
            assert(unions[at] == plan.fault_unions@[at]@);
        }
        if i < plan.fault_unions.len() {
            assert(unions[i as int] == plan.fault_unions@[i as int]@);
        }
    }
    if i < plan.fault_unions.len() {
        first_fault(plan, &plan.fault_unions[i].variants, body)
    } else {
        None
    }
}

/// The body of the request that calls an operation with a record as its input: the request
/// envelope around the elements of the record. An operation without a binding gives no
/// request.
pub fn call(operation: &OpPlan, input: &Record) -> (r: Result<String, Error>)
    ensures
        match r {
            Ok(body) => !(operation.shape is Unimplemented) && body@ == document_text(
                envelope(operation.operation@, operation.namespace@, written(input@)),
            ),
            Err(error) => operation.shape is Unimplemented && error@ == FailureView::Unimplemented,
        },
{
    match operation.shape {
        Shape::Unimplemented => Err(Error::Unimplemented),
        _ => Ok(
            request_of(
                operation.namespace.as_str(),
                operation.operation.as_str(),
                input.to_elements(),
            ),
        ),
    }
}

/// What the body of a response gives by the shape of an operation.
pub fn answer_of(plan: &BindingPlan, operation: &OpPlan, body: &Element) -> (r: Result<
    Answer,
    Error,
>)
    ensures
        view_result(r) == answered_by(plan@, operation@, body@),
{
    let output = match &operation.output {
        Some(name) => record_wrapped(plan, name.as_str()),
        None => record_wrapped(plan, ""),
    };
    proof {
        reveal_strlit("");
        assert(""@ =~= Seq::<char>::empty());
    }
    match Record::from_element(plan, output.as_str(), body) {
        Ok(record) => Ok(Answer::Output(record)),
        Err(error) => match operation.shape {
            Shape::RequestResponseWithFaults => match declared_fault(plan, operation, body) {
                Some((name, fault)) => Ok(Answer::Fault { name, fault }),
                None => Err(Error::Rpser(error)),
            },
            _ => Err(Error::Rpser(error)),
        },
    }
}

/// What the response to a call of an operation gives.
pub fn answer(plan: &BindingPlan, operation: &OpPlan, response: &str) -> (r: Result<
    Answer,
    Error,
>)
    ensures
        view_result(r) == answered(
            plan@,
            operation@,
            read_response(parsed_tree(response.spec_bytes())),
        ),
{
    match operation.shape {
        Shape::OneWay => Ok(Answer::Done),
        Shape::Unimplemented => Err(Error::Unimplemented),
        _ => match response_body(response) {
            Ok(body) => answer_of(plan, operation, &body),
            Err(error) => Err(error),
        },
    }
}

} // verus!
