//! Values stand for what their fields hold.

use crate::diag::grapher::{GraphNode, NodeInner, Shown};
use crate::diag::paths::{path_values, DependencyPath};
use crate::diag::Label;
use crate::json::{field_values, item_values, Json, JsonValue};
use crate::sarif::graphs::trees_of;
use crate::sarif::locator::marks_of;
use crate::sarif::model::{places_of, Location, Message};
use crate::sarif::processors::{findings_of, DiagnosticData};
use crate::small::kids_of;
use vstd::prelude::*;

verus! {

/// A node of a graph shows what it holds, above the nodes that it holds, in order.
pub proof fn node_stands_for_its_fields(node: GraphNode)
    ensures
        node@.repeat == node.repeat,
        node@.parents.len() == node.parents.len(),
        forall|i: int|
            #![trigger node@.parents[i]]
            0 <= i < node.parents.len() ==> node@.parents[i] == node.parents@[i]@,
        match node.inner {
            NodeInner::Krate { name, version, kind, id, is_project_crate } => {
                &&& node@.inner matches Shown::Krate {
                    name: n,
                    version: v,
                    kind: k,
                    id: i,
                    is_project_crate: p,
                }
                &&& n == name@
                &&& v == version
                &&& i == id
                &&& p == is_project_crate
                &&& k is Some <==> kind is Some
                &&& kind is Some ==> k->0 == kind->0@
            },
            NodeInner::Feature { crate_name, name, owner } => {
                &&& node@.inner matches Shown::Feature { crate_name: c, name: n, owner: o }
                &&& c == crate_name@
                &&& n == name@
                &&& o == owner
            },
        },
{
}

/// A path has the root and the crates that it holds, in order.
pub proof fn path_stands_for_its_fields(path: DependencyPath)
    ensures
        path@.root_name == path.root.0@,
        path@.root_version == path.root.1,
        path@.root_kid == path.root_kid,
        path@.is_project_crate == path.is_project_crate,
        path@.crates.len() == path.crates.len(),
        forall|i: int|
            #![trigger path@.crates[i]]
            0 <= i < path.crates.len() ==> {
                &&& path@.crates[i].name == path.crates@[i].0@
                &&& path@.crates[i].version == path.crates@[i].1
                &&& path@.crates[i].kid == path.crates@[i].2
            },
{
}

/// A label has the style, the file, the span and the message that it holds.
pub proof fn label_stands_for_its_fields(label: Label)
    ensures
        label@.style == label.style,
        label@.file_id == label.file_id,
        label@.range == label.range,
        label@.message == label.message@,
{
}

/// A message has the text and the markdown that it holds.
pub proof fn message_stands_for_its_fields(message: Message)
    ensures
        message@.text == message.text@,
        message@.markdown is Some <==> message.markdown is Some,
        message.markdown is Some ==> message@.markdown->0 == message.markdown->0@,
{
}

/// A location has the file, the line, the bytes, the snippet and the message that it
/// holds.
pub proof fn location_stands_for_its_fields(location: Location)
    ensures
        ({
            let region = location.physical_location.region;
            &&& location@.uri == location.physical_location.artifact_location.uri@
            &&& location@.start_line == region.start_line
            &&& location@.byte_offset == region.byte_offset
            &&& location@.byte_length == region.byte_length
            &&& location@.snippet is Some <==> region.snippet is Some
            &&& region.snippet is Some ==> location@.snippet->0 == region.snippet->0@
            &&& location@.message is Some <==> region.message is Some
            &&& region.message is Some ==> location@.message->0 == region.message->0@
        }),
{
}

/// The data of a result have what they hold.
pub proof fn data_stand_for_their_fields(data: DiagnosticData)
    ensures
        data@.code == data.code,
        data@.severity == data.severity,
        data@.krates == kids_of(data.krates),
        data@.message == data.message@,
        data@.extra == data.extra,
        data@.locations.len() == data.locations.len(),
        forall|i: int|
            #![trigger data@.locations[i]]
            0 <= i < data.locations.len() ==> data@.locations[i] == data.locations@[i]@,
{
}

/// Lists stand for what their items stand for, in order.
pub proof fn lists_stand_for_their_items(
    labels: Seq<Label>,
    locations: Seq<Location>,
    paths: Seq<DependencyPath>,
    graphs: Seq<GraphNode>,
    data: Seq<DiagnosticData>,
    i: int,
)
    ensures
        marks_of(labels).len() == labels.len(),
        0 <= i < labels.len() ==> marks_of(labels)[i] == labels[i]@,
        places_of(locations).len() == locations.len(),
        0 <= i < locations.len() ==> places_of(locations)[i] == locations[i]@,
        path_values(paths).len() == paths.len(),
        0 <= i < paths.len() ==> path_values(paths)[i] == paths[i]@,
        trees_of(graphs).len() == graphs.len(),
        0 <= i < graphs.len() ==> trees_of(graphs)[i] == graphs[i]@,
        findings_of(data).len() == data.len(),
        0 <= i < data.len() ==> findings_of(data)[i] == data[i]@,
{
}

/// A JSON value stands for what it holds: lists and fields item by item, in order.
pub proof fn json_stands_for_its_parts(json: Json)
    ensures
        match json {
            Json::Bool(b) => json@ == JsonValue::Bool(b),
            Json::Number(n) => json@ == JsonValue::Number(n as nat),
            Json::Text(s) => json@ == JsonValue::Text(s@),
            Json::Raw(s) => json@ == JsonValue::Raw(s@),
            Json::List(items) => json@ == JsonValue::List(item_values(items@))
                && item_values(items@).len() == items.len() && forall|i: int|
                #![trigger item_values(items@)[i]]
                0 <= i < items.len() ==> item_values(items@)[i] == items@[i]@,
            Json::Fields(fields) => json@ == JsonValue::Fields(field_values(fields@))
                && field_values(fields@).len() == fields.len() && forall|i: int|
                #![trigger field_values(fields@)[i]]
                0 <= i < fields.len() ==> field_values(fields@)[i].0 == fields@[i].0@
                    && field_values(fields@)[i].1 == fields@[i].1@,
        },
{
    match json {
        Json::List(items) => {
            assert(json@->List_0 =~= item_values(items@));
        },
        Json::Fields(fields) => {
            assert(json@->Fields_0 =~= field_values(fields@));
        },
        _ => {},
    }
}

} // verus!
