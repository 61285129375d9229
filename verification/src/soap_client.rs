//! The control point's side of SOAP: the request envelope, reading a
//! response or a fault, and when a failed call is tried again.

use vstd::prelude::*;

use vstd::hash_map::StringHashMap;

use crate::soap::args_xml;
use crate::text::{push_char, push_str};
use crate::xml::{end_tag, pairs_view, push_end, push_start, push_text_element, start_tag};
use crate::xml_tree::{
    child_elements, document_nodes, find_named, first_named, children_of_node, nodes_view,
    parse_document, NodeView, XmlNode,
};

verus! {

broadcast use vstd::seq_lib::group_seq_properties;

/// The output arguments of a SOAP response, by name.
pub struct SoapResponse {
    pub values: StringHashMap<String>,
}

/// Why a SOAP call failed.
#[derive(Debug)]
pub enum SoapError {
    /// The HTTP exchange failed.
    Http(String),
    /// The reply could not be read.
    Xml(String),
    /// The device answered with a SOAP fault.
    Fault { code: String, description: String },
}

/// The request envelope for an action with its input arguments.
pub open spec fn envelope_spec(
    service_type: Seq<char>,
    action: Seq<char>,
    args: Seq<(Seq<char>, Seq<char>)>,
) -> Seq<char> {
    let tag = "u:"@ + action;
    "<?xml version=\"1.0\" encoding=\"utf-8\"?>"@ + start_tag(
        "s:Envelope"@,
        seq![
            ("xmlns:s"@, "http://schemas.xmlsoap.org/soap/envelope/"@),
            ("s:encodingStyle"@, "http://schemas.xmlsoap.org/soap/encoding/"@),
        ],
    ) + start_tag("s:Body"@, Seq::empty()) + start_tag(tag, seq![("xmlns:u"@, service_type)])
        + args_xml(args) + end_tag(tag) + end_tag("s:Body"@) + end_tag("s:Envelope"@)
}

/// Build the request envelope for a SOAP action.
pub fn build_soap_envelope(service_type: &str, action: &str, args: &[(&str, &str)]) -> (r: String)
    ensures
        r@ == envelope_spec(service_type@, action@, pairs_view(args@)),
{
    let mut out = String::from_str("<?xml version=\"1.0\" encoding=\"utf-8\"?>");
    let env_attrs = [
        ("xmlns:s", "http://schemas.xmlsoap.org/soap/envelope/"),
        ("s:encodingStyle", "http://schemas.xmlsoap.org/soap/encoding/"),
    ];
    let no_attrs: [(&str, &str); 0] = [];
    let action_attrs = [("xmlns:u", service_type)];
    proof {
        assert(pairs_view(env_attrs@) =~= seq![
            ("xmlns:s"@, "http://schemas.xmlsoap.org/soap/envelope/"@),
            ("s:encodingStyle"@, "http://schemas.xmlsoap.org/soap/encoding/"@),
        ]);
        assert(pairs_view(action_attrs@) =~= seq![("xmlns:u"@, service_type@)]);
        assert(pairs_view(no_attrs@) =~= Seq::empty());
    }
    push_start(&mut out, "s:Envelope", &env_attrs);
    push_start(&mut out, "s:Body", &no_attrs);
    let mut tag = String::from_str("u:");
    push_str(&mut tag, action);
    push_start(&mut out, tag.as_str(), &action_attrs);
    let ghost base = out@;
    let mut i: usize = 0;
    while i < args.len()
        invariant
            i <= args@.len(),
            out@ == base + args_xml(pairs_view(args@.take(i as int))),
        decreases args.len() - i,
    {
        let (name, value) = args[i];
        push_text_element(&mut out, name, value);
        proof {
            let p = pairs_view(args@.take(i + 1));
            assert(p.drop_last() =~= pairs_view(args@.take(i as int)));
        }
        i = i + 1;
    }
    assert(args@.take(args@.len() as int) =~= args@);
    push_end(&mut out, tag.as_str());
    push_end(&mut out, "s:Body");
    push_end(&mut out, "s:Envelope");
    out
}

/// The `SOAPAction` header of a call: `"{service type}#{action}"`, quoted.
pub fn soap_action_header(service_type: &str, action: &str) -> (r: String)
    ensures
        r@ == seq!['"'] + service_type@ + seq!['#'] + action@ + seq!['"'],
{
    let mut s = String::new();
    push_char(&mut s, '"');
    push_str(&mut s, service_type);
    push_char(&mut s, '#');
    push_str(&mut s, action);
    push_char(&mut s, '"');
    s
}

/// The arguments of an AVTransport or RenderingControl call: `InstanceID`
/// 0, then the action's own.
pub fn with_instance_id<'a>(args: &[(&'a str, &'a str)]) -> (r: Vec<(&'a str, &'a str)>)
    ensures
        pairs_view(r@) == seq![("InstanceID"@, "0"@)] + pairs_view(args@),
{
    let mut r: Vec<(&'a str, &'a str)> = Vec::new();
    r.push(("InstanceID", "0"));
    let mut i: usize = 0;
    while i < args.len()
        invariant
            i <= args@.len(),
            pairs_view(r@) == seq![("InstanceID"@, "0"@)] + pairs_view(args@.take(i as int)),
        decreases args.len() - i,
    {
        let ghost prev = pairs_view(r@);
        r.push(args[i]);
        proof {
            assert(pairs_view(r@) =~= prev.push((args@[i as int].0@, args@[i as int].1@)));
            assert(pairs_view(args@.take(i + 1)) =~= pairs_view(args@.take(i as int)).push(
                (args@[i as int].0@, args@[i as int].1@),
            ));
        }
        i = i + 1;
    }
    assert(args@.take(args@.len() as int) =~= args@);
    r
}

/// The values a response element holds: each element child's text (empty
/// when it has none) under its local name, later children winning.
pub open spec fn child_values(nodes: Seq<NodeView>, kids: Seq<int>) -> Map<Seq<char>, Seq<char>>
    decreases kids.len(),
{
    if kids.len() == 0 {
        Map::empty()
    } else {
        let n = nodes[kids.last()];
        child_values(nodes, kids.drop_last()).insert(
            n.name,
            match n.text {
                Some(t) => t,
                None => Seq::empty(),
            },
        )
    }
}

/// What reading a SOAP response for an action gives: its values, or why it
/// could not be read.
pub open spec fn response_spec(xml: Seq<char>, action: Seq<char>) -> Result<Map<Seq<char>, Seq<char>>, Seq<char>> {
    match document_nodes(xml) {
        Err(e) => Err(e),
        Ok(nodes) => {
            let tag = action + "Response"@;
            match first_named(nodes, tag) {
                None => Err("No <"@ + tag + "> in response"@),
                Some(i) => Ok(child_values(nodes, child_elements(nodes, nodes[i].id))),
            }
        },
    }
}

/// The views of a map's values.
pub open spec fn values_view(m: Map<Seq<char>, String>) -> Map<Seq<char>, Seq<char>> {
    m.map_values(|s: String| s@)
}

/// The texts of the listed element nodes, under their names.
fn collect_values(nodes: &Vec<XmlNode>, kids: &Vec<usize>) -> (values: StringHashMap<String>)
    requires
        forall|a: int| 0 <= a < kids@.len() ==> #[trigger] kids@[a] < nodes@.len(),
    ensures
        values_view(values@) == child_values(nodes_view(nodes@), kids@.map_values(|j: usize| j as int)),
{
    let ghost nv = nodes_view(nodes@);
    let ghost kv = kids@.map_values(|j: usize| j as int);
    let mut values: StringHashMap<String> = StringHashMap::new();
    let mut k: usize = 0;
    assert(values_view(values@) =~= Map::empty());
    assert(kv.take(0) =~= Seq::<int>::empty());
    while k < kids.len()
        invariant
            k <= kids@.len(),
            nv == nodes_view(nodes@),
            kv == kids@.map_values(|j: usize| j as int),
            forall|a: int| 0 <= a < kids@.len() ==> #[trigger] kids@[a] < nodes@.len(),
            values_view(values@) == child_values(nv, kv.take(k as int)),
        decreases kids.len() - k,
    {
        let j = kids[k];
        let node = &nodes[j];
        let ghost before = values@;
        let text = match &node.text {
            Some(t) => t.clone(),
            None => String::new(),
        };
        values.insert(node.name.clone(), text);
        proof {
            assert(kv[k as int] == j as int);
            assert(kv.take(k + 1).drop_last() =~= kv.take(k as int));
            assert(kv.take(k + 1).last() == j as int);
            assert(values_view(values@) =~= values_view(before).insert(
                nv[j as int].name,
                match nv[j as int].text {
                    Some(t) => t,
                    None => Seq::empty(),
                },
            ));
        }
        k = k + 1;
    }
    assert(kv.take(kv.len() as int) =~= kv);
    values
}

/// Read the values of a SOAP response for an action.
pub fn parse_soap_response(xml: &str, action: &str) -> (r: Result<SoapResponse, SoapError>)
    ensures
        match response_spec(xml@, action@) {
            Ok(vals) => r is Ok && values_view(r->Ok_0.values@) == vals,
            Err(e) => r matches Err(SoapError::Xml(m)) && m@ == e,
        },
{
    let nodes = match parse_document(xml) {
        Ok(n) => n,
        Err(e) => return Err(SoapError::Xml(e)),
    };
    let ghost nv = nodes_view(nodes@);
    let mut tag = action.to_owned();
    push_str(&mut tag, "Response");
    let found = find_named(&nodes, tag.as_str());
    match found {
        None => {
            let mut msg = String::from_str("No <");
            push_str(&mut msg, tag.as_str());
            push_str(&mut msg, "> in response");
            Err(SoapError::Xml(msg))
        },
        Some(i) => {
            let kids = children_of_node(&nodes, nodes[i].id);
            let values = collect_values(&nodes, &kids);
            Ok(SoapResponse { values })
        },
    }
}

/// The text of the first element with this name, or `"unknown"` when there
/// is none or it holds no text.
pub open spec fn fault_field(nodes: Seq<NodeView>, name: Seq<char>) -> Seq<char> {
    match first_named(nodes, name) {
        Some(i) => match nodes[i].text {
            Some(t) => t,
            None => "unknown"@,
        },
        None => "unknown"@,
    }
}

fn fault_field_of(nodes: &Vec<XmlNode>, name: &str) -> (r: String)
    ensures
        r@ == fault_field(nodes_view(nodes@), name@),
{
    match find_named(nodes, name) {
        Some(i) => match &nodes[i].text {
            Some(t) => t.clone(),
            None => String::from_str("unknown"),
        },
        None => String::from_str("unknown"),
    }
}

/// Read a SOAP fault: its error code and description (`"unknown"` where
/// missing), or, when the reply is not XML, an error that quotes it.
pub fn parse_soap_fault(xml: &str) -> (r: SoapError)
    ensures
        match document_nodes(xml@) {
            Err(_) => r matches SoapError::Xml(m) && m@ == "Failed to parse SOAP fault: "@ + xml@,
            Ok(nodes) => r matches SoapError::Fault { code, description } && code@ == fault_field(
                nodes,
                "errorCode"@,
            ) && description@ == fault_field(nodes, "errorDescription"@),
        },
{
    match parse_document(xml) {
        Err(_) => {
            let mut msg = String::from_str("Failed to parse SOAP fault: ");
            push_str(&mut msg, xml);
            SoapError::Xml(msg)
        },
        Ok(nodes) => {
            let code = fault_field_of(&nodes, "errorCode");
            let description = fault_field_of(&nodes, "errorDescription");
            SoapError::Fault { code, description }
        },
    }
}

/// What to do with a reply to a SOAP call, by its HTTP status.
#[derive(Debug, PartialEq, Eq)]
pub enum ReplyAction {
    /// 500: a SOAP fault; it is not tried again.
    ReadFault,
    /// A success: read the response.
    ReadResponse,
    /// Any other status: try again.
    Retry,
}

/// Decide what to do with a reply by its HTTP status.
pub fn reply_action(status: u16) -> (r: ReplyAction)
    ensures
        status == 500 ==> r == ReplyAction::ReadFault,
        status != 500 && 200 <= status <= 299 ==> r == ReplyAction::ReadResponse,
        status != 500 && !(200 <= status <= 299) ==> r == ReplyAction::Retry,
{
    if status == 500 {
        ReplyAction::ReadFault
    } else if 200 <= status && status <= 299 {
        ReplyAction::ReadResponse
    } else {
        ReplyAction::Retry
    }
}

/// How many times a failed call is tried again.
pub const MAX_RETRIES: u32 = 3;

/// The first wait before trying again, in milliseconds.
pub const BASE_DELAY_MS: u64 = 300;

/// 2 to the power `n`.
pub open spec fn pow2(n: nat) -> nat
    decreases n,
{
    if n == 0 {
        1
    } else {
        2 * pow2((n - 1) as nat)
    }
}

/// The wait before attempt `attempt` (counting from 0): none before the
/// first, then 300 ms doubling each time.
pub fn retry_delay_ms(attempt: u32) -> (r: u64)
    requires
        attempt <= MAX_RETRIES,
    ensures
        attempt == 0 ==> r == 0,
        attempt > 0 ==> r == BASE_DELAY_MS * pow2((attempt - 1) as nat),
{
    if attempt == 0 {
        0
    } else {
        let mut d: u64 = BASE_DELAY_MS;
        let mut k: u32 = 1;
        while k < attempt
            invariant
                1 <= k <= attempt <= MAX_RETRIES,
                d == BASE_DELAY_MS * pow2((k - 1) as nat),
                d <= 300 * 4,
                k == 1 ==> d == 300,
                k == 2 ==> d == 600,
            decreases attempt - k,
        {
            assert(pow2(k as nat) == 2 * pow2((k - 1) as nat));
            d = d * 2;
            k = k + 1;
        }
        d
    }
}

} // verus!
