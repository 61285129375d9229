//! A UPnP device's schema: its description and the actions its service
//! descriptions (SCPDs) declare.

use vstd::prelude::*;

use crate::text::push_str;
use crate::xml_tree::{
    child_text_in, child_text_in_spec, document_nodes, find_named_within, named_within, nodes_view,
    parse_document, NodeView, XmlNode,
};

verus! {

broadcast use vstd::seq_lib::group_seq_properties;

/// The UPnP device namespace.
pub const UPNP_NS: &'static str = "urn:schemas-upnp-org:device-1-0";

/// The UPnP service namespace.
pub const SCPD_NS: &'static str = "urn:schemas-upnp-org:service-1-0";

/// Which way an action argument goes.
#[derive(Debug, Clone, Copy, PartialEq, Eq, Structural)]
pub enum Direction {
    In,
    Out,
}

/// One argument of an action.
#[derive(Debug)]
pub struct ArgumentSchema {
    pub name: String,
    pub direction: Direction,
    pub related_state_variable: String,
}

/// One action a service declares.
#[derive(Debug)]
pub struct ActionSchema {
    pub name: String,
    pub arguments: Vec<ArgumentSchema>,
}

/// One service a device lists.
#[derive(Debug)]
pub struct ServiceSchema {
    pub service_type: String,
    pub service_id: String,
    pub control_url: String,
    pub scpd_url: String,
    pub event_url: String,
    pub actions: Vec<ActionSchema>,
}

/// What a device describes of itself.
#[derive(Debug)]
pub struct DeviceSchema {
    pub friendly_name: String,
    pub model_name: String,
    pub model_number: String,
    pub udn: String,
    pub services: Vec<ServiceSchema>,
}

/// An argument as plain values: name, direction, related state variable.
pub type ArgumentView = (Seq<char>, Direction, Seq<char>);

/// An action as plain values: name and arguments.
pub type ActionView = (Seq<char>, Seq<ArgumentView>);

/// An argument's plain values.
pub open spec fn argument_view(a: ArgumentSchema) -> ArgumentView {
    (a.name@, a.direction, a.related_state_variable@)
}

/// An action's plain values.
pub open spec fn action_view(a: ActionSchema) -> ActionView {
    (a.name@, a.arguments@.map_values(|x: ArgumentSchema| argument_view(x)))
}

/// The plain values of a list of actions.
pub open spec fn actions_view(v: Seq<ActionSchema>) -> Seq<ActionView> {
    v.map_values(|a: ActionSchema| action_view(a))
}

/// A text, or the empty string when there is none.
pub open spec fn text_or_empty(t: Option<Seq<char>>) -> Seq<char> {
    match t {
        Some(s) => s,
        None => Seq::empty(),
    }
}

/// The direction an argument's `direction` text names: `in`, else out.
pub open spec fn direction_spec(s: Seq<char>) -> Direction {
    if s == "in"@ {
        Direction::In
    } else {
        Direction::Out
    }
}

/// The text of a node's child in the service namespace (or none), empty
/// when missing.
pub open spec fn scpd_text(nodes: Seq<NodeView>, j: int, name: Seq<char>) -> Seq<char> {
    text_or_empty(child_text_in_spec(nodes, nodes[j].id, SCPD_NS@, name))
}

/// The argument the element at position `j` declares.
pub open spec fn argument_at(nodes: Seq<NodeView>, j: int) -> ArgumentView {
    (
        scpd_text(nodes, j, "name"@),
        direction_spec(scpd_text(nodes, j, "direction"@)),
        scpd_text(nodes, j, "relatedStateVariable"@),
    )
}

/// The action the element at position `j` declares: its name and the
/// `argument` elements below it.
pub open spec fn action_at(nodes: Seq<NodeView>, j: int) -> ActionView {
    (
        scpd_text(nodes, j, "name"@),
        named_within(nodes, nodes[j].id, nodes[j].last, Some(SCPD_NS@), "argument"@).map_values(
            |k: int| argument_at(nodes, k),
        ),
    )
}

/// The actions a service description declares: every `action` element in
/// the service namespace, in document order.
pub open spec fn actions_spec(nodes: Seq<NodeView>) -> Seq<ActionView> {
    named_within(nodes, 0, usize::MAX as nat, Some(SCPD_NS@), "action"@).map_values(
        |j: int| action_at(nodes, j),
    )
}

/// Read a child's text in the service namespace, empty when missing.
fn scpd_child(nodes: &Vec<XmlNode>, j: usize, name: &str) -> (r: String)
    requires
        j < nodes@.len(),
    ensures
        r@ == scpd_text(nodes_view(nodes@), j as int, name@),
{
    match child_text_in(nodes, nodes[j].id, SCPD_NS, name) {
        Some(t) => t,
        None => String::new(),
    }
}

/// Read the direction an argument's text names.
pub fn direction_of(s: &str) -> (r: Direction)
    ensures
        r == direction_spec(s@),
{
    if crate::text::str_eq(s, "in") {
        Direction::In
    } else {
        Direction::Out
    }
}

fn argument_of(nodes: &Vec<XmlNode>, j: usize) -> (r: ArgumentSchema)
    requires
        j < nodes@.len(),
    ensures
        argument_view(r) == argument_at(nodes_view(nodes@), j as int),
{
    let name = scpd_child(nodes, j, "name");
    let direction = scpd_child(nodes, j, "direction");
    let related_state_variable = scpd_child(nodes, j, "relatedStateVariable");
    ArgumentSchema { name, direction: direction_of(direction.as_str()), related_state_variable }
}

fn action_of(nodes: &Vec<XmlNode>, j: usize) -> (r: ActionSchema)
    requires
        j < nodes@.len(),
    ensures
        action_view(r) == action_at(nodes_view(nodes@), j as int),
{
    let ghost v = nodes_view(nodes@);
    let name = scpd_child(nodes, j, "name");
    let idx = find_named_within(nodes, nodes[j].id, nodes[j].last, Some(SCPD_NS), "argument");
    let ghost iv = idx@.map_values(|k: usize| k as int);
    let mut arguments: Vec<ArgumentSchema> = Vec::new();
    let mut i: usize = 0;
    while i < idx.len()
        invariant
            i <= idx@.len(),
            v == nodes_view(nodes@),
            iv == idx@.map_values(|k: usize| k as int),
            forall|a: int| 0 <= a < idx@.len() ==> #[trigger] idx@[a] < nodes@.len(),
            arguments@.map_values(|x: ArgumentSchema| argument_view(x)) == iv.take(i as int).map_values(
                |k: int| argument_at(v, k),
            ),
        decreases idx.len() - i,
    {
        let ghost prev = arguments@.map_values(|x: ArgumentSchema| argument_view(x));
        let a = argument_of(nodes, idx[i]);
        let ghost av = argument_view(a);
        arguments.push(a);
        proof {
            assert(arguments@.map_values(|x: ArgumentSchema| argument_view(x)) =~= prev.push(av));
            assert(iv.take(i + 1).map_values(|k: int| argument_at(v, k)) =~= iv.take(i as int).map_values(
                |k: int| argument_at(v, k),
            ).push(argument_at(v, iv[i as int])));
        }
        i = i + 1;
    }
    assert(iv.take(iv.len() as int) =~= iv);
    ActionSchema { name, arguments }
}

/// The actions a list of nodes declares.
fn actions_of(nodes: &Vec<XmlNode>) -> (r: Vec<ActionSchema>)
    ensures
        actions_view(r@) == actions_spec(nodes_view(nodes@)),
{
    let ghost v = nodes_view(nodes@);
    let idx = find_named_within(nodes, 0, usize::MAX, Some(SCPD_NS), "action");
    let ghost iv = idx@.map_values(|k: usize| k as int);
    let mut actions: Vec<ActionSchema> = Vec::new();
    let mut i: usize = 0;
    while i < idx.len()
        invariant
            i <= idx@.len(),
            v == nodes_view(nodes@),
            iv == idx@.map_values(|k: usize| k as int),
            forall|a: int| 0 <= a < idx@.len() ==> #[trigger] idx@[a] < nodes@.len(),
            actions_view(actions@) == iv.take(i as int).map_values(|k: int| action_at(v, k)),
        decreases idx.len() - i,
    {
        let ghost prev = actions_view(actions@);
        let a = action_of(nodes, idx[i]);
        let ghost av = action_view(a);
        actions.push(a);
        proof {
            assert(actions_view(actions@) =~= prev.push(av));
            assert(iv.take(i + 1).map_values(|k: int| action_at(v, k)) =~= iv.take(i as int).map_values(
                |k: int| action_at(v, k),
            ).push(action_at(v, iv[i as int])));
        }
        i = i + 1;
    }
    assert(iv.take(iv.len() as int) =~= iv);
    actions
}

/// Read the actions a service description (SCPD) declares, or the parser's
/// message when it is not XML.
pub fn parse_actions(xml: &str) -> (r: Result<Vec<ActionSchema>, String>)
    ensures
        match r {
            Ok(v) => document_nodes(xml@) matches Ok(nodes) && actions_view(v@) == actions_spec(nodes),
            Err(e) => document_nodes(xml@) == Err::<Seq<NodeView>, Seq<char>>(e@),
        },
{
    match parse_document(xml) {
        Ok(nodes) => Ok(actions_of(&nodes)),
        Err(e) => Err(e),
    }
}

/// A service's addresses as plain values: type, id, control URL, SCPD URL
/// and event URL.
pub type ServiceHead = (Seq<char>, Seq<char>, Seq<char>, Seq<char>, Seq<char>);

/// A service's addresses.
pub open spec fn service_head(s: ServiceSchema) -> ServiceHead {
    (s.service_type@, s.service_id@, s.control_url@, s.scpd_url@, s.event_url@)
}

/// The text of a node's child in the device namespace (or none), empty
/// when missing.
pub open spec fn upnp_text(nodes: Seq<NodeView>, j: int, name: Seq<char>) -> Seq<char> {
    text_or_empty(child_text_in_spec(nodes, nodes[j].id, UPNP_NS@, name))
}

/// The addresses the `service` element at position `j` gives.
pub open spec fn service_at(nodes: Seq<NodeView>, j: int) -> ServiceHead {
    (
        upnp_text(nodes, j, "serviceType"@),
        upnp_text(nodes, j, "serviceId"@),
        upnp_text(nodes, j, "controlURL"@),
        upnp_text(nodes, j, "SCPDURL"@),
        upnp_text(nodes, j, "eventSubURL"@),
    )
}

/// The position of the first `device` element in the device namespace.
pub open spec fn first_device(nodes: Seq<NodeView>) -> Option<int> {
    let d = named_within(nodes, 0, usize::MAX as nat, Some(UPNP_NS@), "device"@);
    if d.len() > 0 {
        Some(d[0])
    } else {
        None
    }
}

/// The `service` elements below the device at position `i`, any namespace.
pub open spec fn services_below(nodes: Seq<NodeView>, i: int) -> Seq<int> {
    named_within(nodes, nodes[i].id, nodes[i].last, None, "service"@)
}

/// Why a device description could not be read.
#[derive(Debug, PartialEq, Eq)]
pub enum SchemaError {
    /// The description is not XML; the message says why.
    Xml(String),
    /// The description has no `<device>` element.
    NoDevice,
}

/// Read a child's text in the device namespace, empty when missing.
fn upnp_child(nodes: &Vec<XmlNode>, j: usize, name: &str) -> (r: String)
    requires
        j < nodes@.len(),
    ensures
        r@ == upnp_text(nodes_view(nodes@), j as int, name@),
{
    match child_text_in(nodes, nodes[j].id, UPNP_NS, name) {
        Some(t) => t,
        None => String::new(),
    }
}

fn service_of(nodes: &Vec<XmlNode>, j: usize) -> (r: ServiceSchema)
    requires
        j < nodes@.len(),
    ensures
        service_head(r) == service_at(nodes_view(nodes@), j as int),
        r.actions@.len() == 0,
{
    let service_type = upnp_child(nodes, j, "serviceType");
    let service_id = upnp_child(nodes, j, "serviceId");
    let control_url = upnp_child(nodes, j, "controlURL");
    let scpd_url = upnp_child(nodes, j, "SCPDURL");
    let event_url = upnp_child(nodes, j, "eventSubURL");
    ServiceSchema { service_type, service_id, control_url, scpd_url, event_url, actions: Vec::new() }
}

fn services_of(nodes: &Vec<XmlNode>, i: usize) -> (r: Vec<ServiceSchema>)
    requires
        i < nodes@.len(),
    ensures
        r@.map_values(|s: ServiceSchema| service_head(s)) == services_below(nodes_view(nodes@), i as int).map_values(
            |j: int| service_at(nodes_view(nodes@), j),
        ),
        forall|k: int| 0 <= k < r@.len() ==> #[trigger] r@[k].actions@.len() == 0,
{
    let ghost v = nodes_view(nodes@);
    let idx = find_named_within(nodes, nodes[i].id, nodes[i].last, None, "service");
    let ghost iv = idx@.map_values(|k: usize| k as int);
    let mut r: Vec<ServiceSchema> = Vec::new();
    let mut n: usize = 0;
    while n < idx.len()
        invariant
            n <= idx@.len(),
            v == nodes_view(nodes@),
            iv == idx@.map_values(|k: usize| k as int),
            iv == services_below(v, i as int),
            forall|a: int| 0 <= a < idx@.len() ==> #[trigger] idx@[a] < nodes@.len(),
            r@.map_values(|s: ServiceSchema| service_head(s)) == iv.take(n as int).map_values(
                |j: int| service_at(v, j),
            ),
            forall|k: int| 0 <= k < r@.len() ==> #[trigger] r@[k].actions@.len() == 0,
        decreases idx.len() - n,
    {
        let ghost prev = r@.map_values(|s: ServiceSchema| service_head(s));
        let s = service_of(nodes, idx[n]);
        let ghost sv = service_head(s);
        r.push(s);
        proof {
            assert(r@.map_values(|s: ServiceSchema| service_head(s)) =~= prev.push(sv));
            assert(iv.take(n + 1).map_values(|j: int| service_at(v, j)) =~= iv.take(n as int).map_values(
                |j: int| service_at(v, j),
            ).push(service_at(v, iv[n as int])));
        }
        n = n + 1;
    }
    assert(iv.take(iv.len() as int) =~= iv);
    r
}

/// Read a device description: the first `device` element in the device
/// namespace gives the names and UDN (empty when missing) and, from every
/// `service` element below it, the service addresses. The actions are
/// left empty: they come from each service's own description.
pub fn parse_device_schema(xml: &str) -> (r: Result<DeviceSchema, SchemaError>)
    ensures
        match r {
            Ok(d) => {
                &&& document_nodes(xml@) matches Ok(nodes)
                &&& first_device(nodes) matches Some(i)
                &&& d.friendly_name@ == upnp_text(nodes, i, "friendlyName"@)
                &&& d.model_name@ == upnp_text(nodes, i, "modelName"@)
                &&& d.model_number@ == upnp_text(nodes, i, "modelNumber"@)
                &&& d.udn@ == upnp_text(nodes, i, "UDN"@)
                &&& d.services@.map_values(|s: ServiceSchema| service_head(s)) == services_below(
                    nodes,
                    i,
                ).map_values(|j: int| service_at(nodes, j))
                &&& forall|k: int| 0 <= k < d.services@.len() ==> #[trigger] d.services@[k].actions@.len() == 0
            },
            Err(SchemaError::Xml(m)) => document_nodes(xml@) == Err::<Seq<NodeView>, Seq<char>>(m@),
            Err(SchemaError::NoDevice) => document_nodes(xml@) matches Ok(nodes) && first_device(nodes) is None,
        },
{
    let nodes = match parse_document(xml) {
        Ok(n) => n,
        Err(e) => return Err(SchemaError::Xml(e)),
    };
    let devices = find_named_within(&nodes, 0, usize::MAX, Some(UPNP_NS), "device");
    if devices.len() == 0 {
        return Err(SchemaError::NoDevice);
    }
    let i = devices[0];
    let friendly_name = upnp_child(&nodes, i, "friendlyName");
    let model_name = upnp_child(&nodes, i, "modelName");
    let model_number = upnp_child(&nodes, i, "modelNumber");
    let udn = upnp_child(&nodes, i, "UDN");
    let services = services_of(&nodes, i);
    Ok(DeviceSchema { friendly_name, model_name, model_number, udn, services })
}

/// The URL of a device's description below its base URL.
pub fn description_url(base_url: &str) -> (r: String)
    ensures
        r@ == base_url@ + "/description.xml"@,
{
    let mut s = base_url.to_owned();
    push_str(&mut s, "/description.xml");
    s
}

/// The URL to fetch a service's description from: the base URL followed by
/// its SCPD URL, or none when the service gives no SCPD URL.
pub fn scpd_fetch_url(base_url: &str, scpd_url: &str) -> (r: Option<String>)
    ensures
        scpd_url@.len() == 0 ==> r is None,
        scpd_url@.len() > 0 ==> (r matches Some(u) && u@ == base_url@ + scpd_url@),
{
    if scpd_url.unicode_len() == 0 {
        None
    } else {
        let mut s = base_url.to_owned();
        push_str(&mut s, scpd_url);
        Some(s)
    }
}

} // verus!
