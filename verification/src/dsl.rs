//! Helpers for writing models down briefly: endpoints in the form
//! `process.port`, and the stepper that every such model gets.

use crate::fixed::Fixed;
use crate::model::connection::{rate_view, Connection, ConnectionView};
use crate::model::nodes::stepper::{default_stepper, Stepper};
use crate::model::process::{Process, ProcessKind};
use crate::model::process_trait::ProcessModel;
use vstd::prelude::*;
use vstd::string::StrSliceExecFns;
use vstd::string::StringExecFns;

verus! {

/// The position of the first full stop in a text, or the length of the text
/// where it has none.
pub open spec fn first_dot(text: Seq<char>) -> int
    decreases text.len(),
{
    if text.len() == 0 {
        0
    } else if text[0] == '.' {
        0
    } else {
        1 + first_dot(text.drop_first())
    }
}

/// The process that an endpoint names: what stands before the first full
/// stop.
pub open spec fn endpoint_id(endpoint: Seq<char>) -> Seq<char> {
    endpoint.take(first_dot(endpoint))
}

/// The port that an endpoint names: what stands behind the first full
/// stop, if there is one.
pub open spec fn endpoint_port(endpoint: Seq<char>) -> Option<Seq<char>> {
    if first_dot(endpoint) < endpoint.len() {
        Some(endpoint.skip(first_dot(endpoint) + 1))
    } else {
        None
    }
}

/// The first full stop of a text lies within the text or at its end, and
/// nothing before it is a full stop.
pub proof fn lemma_first_dot(text: Seq<char>)
    ensures
        0 <= first_dot(text) <= text.len(),
        first_dot(text) < text.len() ==> text[first_dot(text)] == '.',
        forall|i: int| 0 <= i < first_dot(text) ==> text[i] != '.',
    decreases text.len(),
{
    if text.len() > 0 && text[0] != '.' {
        let rest = text.drop_first();
        lemma_first_dot(rest);
        assert forall|i: int| 0 <= i < first_dot(text) implies text[i] != '.' by {
            if i > 0 {
                assert(text[i] == rest[i - 1]);
            }
        }
    }
}

/// Parts an endpoint such as `source1.out` into the process and the port it
/// names. An endpoint without a full stop names no port.
pub fn parse_endpoint(endpoint: &str) -> (r: (&str, Option<&str>))
    ensures
        r.0@ == endpoint_id(endpoint@),
        match r.1 {
            Some(port) => endpoint_port(endpoint@) == Some(port@),
            None => endpoint_port(endpoint@) is None,
        },
{
    let length = endpoint.unicode_len();
    let ghost text = endpoint@;
    let mut i: usize = 0;
    assert(text.skip(0) =~= text);
    while i < length
        invariant
            i <= length,
            length == text.len(),
            text == endpoint@,
            first_dot(text) == i + first_dot(text.skip(i as int)),
        decreases length - i,
    {
        assert(text.skip(i as int)[0] == text[i as int]);
        assert(text.skip(i as int).drop_first() =~= text.skip(i + 1));
        if endpoint.get_char(i) == '.' {
            let id = endpoint.substring_char(0, i);
            let port = endpoint.substring_char(i + 1, length);
            assert(text.subrange(0, i as int) =~= text.take(i as int));
            assert(text.subrange(i + 1, length as int) =~= text.skip(i + 1));
            return (id, Some(port));
        }
        i += 1;
    }
    assert(text.take(length as int) =~= text);
    (endpoint, None)
}

/// The stepper that a model gets by default: it goes by `stepper`.
pub fn create_stepper() -> (r: Process)
    ensures
        r@ == ProcessModel::Stepper(default_stepper("stepper"@)),
        r.wf(),
{
    Process::new(ProcessKind::Stepper(Stepper::new("stepper")))
}

/// The identifier of a connection that was given none: `conn_`, the source
/// process, `_`, the target process.
pub open spec fn default_connection_id(source_id: Seq<char>, target_id: Seq<char>) -> Seq<char> {
    "conn_"@ + source_id + "_"@ + target_id
}

/// The connection between two endpoints.
pub open spec fn connection_between(
    source: Seq<char>,
    target: Seq<char>,
    id: Option<Seq<char>>,
    flow_rate: Option<int>,
) -> ConnectionView {
    ConnectionView {
        id: match id {
            Some(id) => id,
            None => default_connection_id(endpoint_id(source), endpoint_id(target)),
        },
        source_id: endpoint_id(source),
        source_port: endpoint_port(source),
        target_id: endpoint_id(target),
        target_port: endpoint_port(target),
        flow_rate,
        sequence_number: 0,
    }
}

/// An owned copy of an optional borrowed name.
fn owned(name: Option<&str>) -> (r: Option<String>)
    ensures
        crate::simulator::event::port_view(r) == crate::model::process_context::name_view(name),
{
    match name {
        Some(n) => Some(n.to_owned()),
        None => None,
    }
}

/// The connection from the endpoint `source` to the endpoint `target`. A
/// connection that is given no identifier is named after the two processes.
pub fn connect(source: &str, target: &str, id: Option<&str>, flow_rate: Option<Fixed>) -> (r:
    Connection)
    ensures
        r@ == connection_between(
            source@,
            target@,
            crate::model::process_context::name_view(id),
            rate_view(flow_rate),
        ),
{
    let (source_id, source_port) = parse_endpoint(source);
    let (target_id, target_port) = parse_endpoint(target);
    let id = match id {
        Some(id) => id.to_owned(),
        None => String::from_str("conn_").concat(source_id).concat("_").concat(target_id),
    };
    Connection::new(
        id,
        source_id.to_owned(),
        owned(source_port),
        target_id.to_owned(),
        owned(target_port),
        flow_rate,
    )
}

} // verus!
