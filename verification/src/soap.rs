//! SOAP envelopes of UPnP control: reading an action request, writing a
//! response or a fault.

use vstd::prelude::*;

use vstd::hash_map::StringHashMap;

use crate::text::{
    decimal, decimal_string, is_last_at, leading_count, push_str, rsplit_once, rsplit_once_spec, str_eq, trim_matches,
    trim_matches_spec,
};
use crate::xml::{
    end_tag, escape_spec, escape_xml, pairs_view, push_end, push_start, push_text_element, read_xml_events, start_tag,
    text_element, xml_events, XmlEvent,
};

verus! {

/// A parsed SOAP action request.
pub struct SoapAction {
    pub service_type: String,
    pub action_name: String,
    pub args: StringHashMap<String>,
}

/// The local part of a qualified XML name: what follows its last `:`.
pub open spec fn local_name_spec(name: Seq<char>) -> Seq<char> {
    match rsplit_once_spec(name, ':') {
        Some((_, local)) => local,
        None => name,
    }
}

/// Extract the local name from a possibly prefixed XML tag name.
pub fn local_name(name: &str) -> (r: String)
    ensures
        r@ == local_name_spec(name@),
{
    match rsplit_once(name, ':') {
        Some((_, local)) => local,
        None => name.to_owned(),
    }
}

/// The local name of a tag given as bytes: empty when they are not UTF-8.
pub open spec fn local_name_of_bytes(name: Seq<u8>) -> Seq<char> {
    if vstd::utf8::valid_utf8(name) {
        local_name_spec(vstd::utf8::decode_utf8(name))
    } else {
        Seq::empty()
    }
}

/// Extract the local name from the bytes of a tag name.
pub fn local_name_bytes(name: &[u8]) -> (r: String)
    ensures
        r@ == local_name_of_bytes(name@),
{
    match crate::ssdp::utf8_text(name) {
        Some(s) => local_name(s.as_str()),
        None => String::new(),
    }
}

/// Where the reader of a SOAP body stands: inside the `Body` element,
/// inside the action element, and inside which argument.
pub struct ScanState {
    pub inside_body: bool,
    pub inside_action: bool,
    pub current_arg: Option<Seq<char>>,
    pub args: Map<Seq<char>, Seq<char>>,
}

/// The state before the first event.
pub open spec fn scan_start() -> ScanState {
    ScanState { inside_body: false, inside_action: false, current_arg: None, args: Map::empty() }
}

/// One event read from a SOAP body: an opening `Body` enters the body, the
/// action's element inside it enters the action, and any other element
/// inside the action starts an argument, whose text becomes the argument's
/// value; closing tags leave them again. Text that cannot be unescaped
/// inside an argument, and malformed XML, are errors.
pub open spec fn scan_step(st: ScanState, ev: XmlEvent, action: Seq<char>) -> Result<ScanState, Seq<char>> {
    match ev {
        XmlEvent::Start(name) => {
            let local = local_name_of_bytes(name@);
            if local == "Body"@ {
                Ok(ScanState { inside_body: true, ..st })
            } else if st.inside_body && local == action {
                Ok(ScanState { inside_action: true, ..st })
            } else if st.inside_action {
                Ok(ScanState { current_arg: Some(local), ..st })
            } else {
                Ok(st)
            }
        },
        XmlEvent::Text(t) => match st.current_arg {
            Some(arg) => match t {
                Ok(text) => Ok(ScanState { args: st.args.insert(arg, text@), ..st }),
                Err(e) => Err(e@),
            },
            None => Ok(st),
        },
        XmlEvent::End(name) => {
            let local = local_name_of_bytes(name@);
            if local == "Body"@ {
                Ok(ScanState { inside_body: false, ..st })
            } else if st.inside_action && local == action {
                Ok(ScanState { inside_action: false, ..st })
            } else if st.current_arg == Some(local) {
                Ok(ScanState { current_arg: None, ..st })
            } else {
                Ok(st)
            }
        },
        XmlEvent::Other => Ok(st),
        XmlEvent::Error(e) => Err("XML parse error: "@ + e@),
    }
}

/// The state after the first `n` events, or the first error.
pub open spec fn scan_events(events: Seq<XmlEvent>, n: nat, action: Seq<char>) -> Result<ScanState, Seq<char>>
    decreases n,
{
    if n == 0 {
        Ok(scan_start())
    } else {
        match scan_events(events, (n - 1) as nat, action) {
            Ok(st) => scan_step(st, events[n - 1], action),
            Err(e) => Err(e),
        }
    }
}

/// Once reading a SOAP body has failed, it stays failed with that error.
proof fn lemma_scan_error_sticks(events: Seq<XmlEvent>, n: nat, m: nat, action: Seq<char>)
    requires
        n <= m,
        scan_events(events, n, action) is Err,
    ensures
        scan_events(events, m, action) == scan_events(events, n, action),
    decreases m - n,
{
    if n < m {
        lemma_scan_error_sticks(events, n, (m - 1) as nat, action);
    }
}

/// The views of a map's string values.
pub open spec fn values_view(m: Map<Seq<char>, String>) -> Map<Seq<char>, Seq<char>> {
    m.map_values(|s: String| s@)
}

/// The arguments of a SOAP action read from the events of its body.
pub fn collect_soap_args(events: &Vec<XmlEvent>, action_name: &str) -> (r: Result<StringHashMap<String>, String>)
    ensures
        match scan_events(events@, events@.len(), action_name@) {
            Ok(st) => r is Ok && values_view(r->Ok_0@) == st.args,
            Err(e) => r is Err && r->Err_0@ == e,
        },
{
    let mut args: StringHashMap<String> = StringHashMap::new();
    let mut inside_body = false;
    let mut inside_action = false;
    let mut current_arg: Option<String> = None;
    let mut i: usize = 0;
    assert(values_view(args@) =~= Map::empty());
    while i < events.len()
        invariant
            i <= events@.len(),
            scan_events(events@, i as nat, action_name@) == Ok::<ScanState, Seq<char>>(ScanState {
                inside_body,
                inside_action,
                current_arg: match current_arg {
                    Some(a) => Some(a@),
                    None => None,
                },
                args: values_view(args@),
            }),
        decreases events.len() - i,
    {
        let ghost before = args@;
        match &events[i] {
            XmlEvent::Start(name) => {
                let local = local_name_bytes(name.as_slice());
                if str_eq(local.as_str(), "Body") {
                    inside_body = true;
                } else if inside_body && str_eq(local.as_str(), action_name) {
                    inside_action = true;
                } else if inside_action {
                    current_arg = Some(local);
                }
            },
            XmlEvent::Text(t) => {
                match &current_arg {
                    Some(arg) => match t {
                        Ok(text) => {
                            args.insert(arg.clone(), text.clone());
                            assert(values_view(args@) =~= values_view(before).insert(arg@, text@));
                        },
                        Err(e) => {
                            proof {
                                lemma_scan_error_sticks(events@, (i + 1) as nat, events@.len(), action_name@);
                            }
                            return Err(e.clone());
                        },
                    },
                    None => {},
                }
            },
            XmlEvent::End(name) => {
                let local = local_name_bytes(name.as_slice());
                if str_eq(local.as_str(), "Body") {
                    inside_body = false;
                } else if inside_action && str_eq(local.as_str(), action_name) {
                    inside_action = false;
                } else {
                    let same = match &current_arg {
                        Some(a) => str_eq(a.as_str(), local.as_str()),
                        None => false,
                    };
                    if same {
                        current_arg = None;
                    }
                }
            },
            XmlEvent::Other => {},
            XmlEvent::Error(e) => {
                let mut msg = String::from_str("XML parse error: ");
                push_str(&mut msg, e.as_str());
                proof {
                    lemma_scan_error_sticks(events@, (i + 1) as nat, events@.len(), action_name@);
                }
                return Err(msg);
            },
        }
        i = i + 1;
    }
    Ok(args)
}

/// The service type and action name a `SOAPAction` header names: the header
/// without surrounding double quotes, split at its last `#`.
pub open spec fn soap_header_spec(header: Seq<char>) -> Option<(Seq<char>, Seq<char>)> {
    rsplit_once_spec(trim_matches_spec(header, '"'), '#')
}

/// What `parse_soap_action` returns for a header and the events of a body.
pub open spec fn parse_soap_spec(header: Seq<char>, events: Seq<XmlEvent>) -> Result<
    (Seq<char>, Seq<char>, Map<Seq<char>, Seq<char>>),
    Seq<char>,
> {
    match soap_header_spec(header) {
        None => Err("Invalid SOAPAction header: "@ + trim_matches_spec(header, '"')),
        Some((service, action)) => match scan_events(events, events.len(), action) {
            Ok(st) => Ok((service, action, st.args)),
            Err(e) => Err(e),
        },
    }
}

/// Parse a SOAP action from the `SOAPAction` header and the request body.
pub fn parse_soap_action(soap_action_header: &str, body: &[u8]) -> (r: Result<SoapAction, String>)
    ensures
        match parse_soap_spec(soap_action_header@, xml_events(body@)) {
            Ok((service, action, args)) => r is Ok && r->Ok_0.service_type@ == service
                && r->Ok_0.action_name@ == action && values_view(r->Ok_0.args@) == args,
            Err(e) => r is Err && r->Err_0@ == e,
        },
{
    let header = trim_matches(soap_action_header, '"');
    match rsplit_once(header.as_str(), '#') {
        None => {
            let mut msg = String::from_str("Invalid SOAPAction header: ");
            push_str(&mut msg, header.as_str());
            Err(msg)
        },
        Some((service_type, action_name)) => {
            let events = read_xml_events(body);
            match collect_soap_args(&events, action_name.as_str()) {
                Ok(args) => Ok(SoapAction { service_type, action_name, args }),
                Err(e) => Err(e),
            }
        },
    }
}

/// The XML declaration quick-xml writes for version 1.0 in UTF-8.
pub open spec fn xml_decl() -> Seq<char> {
    "<?xml version=\"1.0\" encoding=\"UTF-8\"?>"@
}

/// The argument elements of a response, in order.
pub open spec fn args_xml(args: Seq<(Seq<char>, Seq<char>)>) -> Seq<char>
    decreases args.len(),
{
    if args.len() == 0 {
        Seq::empty()
    } else {
        args_xml(args.drop_last()) + text_element(args.last().0, args.last().1)
    }
}

/// The SOAP response envelope for an action, with its output arguments.
#[verifier::opaque]
pub open spec fn soap_response_spec(
    service_type: Seq<char>,
    action_name: Seq<char>,
    args: Seq<(Seq<char>, Seq<char>)>,
) -> Seq<char> {
    let resp = "u:"@ + action_name + "Response"@;
    xml_decl() + start_tag(
        "s:Envelope"@,
        seq![
            ("xmlns:s"@, "http://schemas.xmlsoap.org/soap/envelope/"@),
            ("s:encodingStyle"@, "http://schemas.xmlsoap.org/soap/encoding/"@),
        ],
    ) + start_tag("s:Body"@, Seq::empty()) + start_tag(resp, seq![("xmlns:u"@, service_type)])
        + args_xml(args) + end_tag(resp) + end_tag("s:Body"@) + end_tag("s:Envelope"@)
}

/// Build a SOAP response envelope.
pub fn soap_response(service_type: &str, action_name: &str, args: &[(&str, &str)]) -> (r: String)
    ensures
        r@ == soap_response_spec(service_type@, action_name@, pairs_view(args@)),
{
    let mut out = String::from_str("<?xml version=\"1.0\" encoding=\"UTF-8\"?>");
    let env_attrs = [
        ("xmlns:s", "http://schemas.xmlsoap.org/soap/envelope/"),
        ("s:encodingStyle", "http://schemas.xmlsoap.org/soap/encoding/"),
    ];
    let no_attrs: [(&str, &str); 0] = [];
    let resp_attrs = [("xmlns:u", service_type)];
    proof {
        assert(pairs_view(env_attrs@) =~= seq![
            ("xmlns:s"@, "http://schemas.xmlsoap.org/soap/envelope/"@),
            ("s:encodingStyle"@, "http://schemas.xmlsoap.org/soap/encoding/"@),
        ]);
        assert(pairs_view(resp_attrs@) =~= seq![("xmlns:u"@, service_type@)]);
        assert(pairs_view(no_attrs@) =~= Seq::empty());
    }
    push_start(&mut out, "s:Envelope", &env_attrs);
    push_start(&mut out, "s:Body", &no_attrs);
    let mut resp = String::from_str("u:");
    push_str(&mut resp, action_name);
    push_str(&mut resp, "Response");
    push_start(&mut out, resp.as_str(), &resp_attrs);
    let ghost base = out@;
    let mut i: usize = 0;
    while i < args.len()
        invariant
            i <= args@.len(),
            out@ == base + args_xml(pairs_view(args@.take(i as int))),
        decreases args.len() - i,
    {
        let (name, value) = args[i];
        push_text_element(&mut out, name, value);
        proof {
            let p = pairs_view(args@.take(i + 1));
            assert(p.drop_last() =~= pairs_view(args@.take(i as int)));
        }
        i = i + 1;
    }
    assert(args@.take(args@.len() as int) =~= args@);
    push_end(&mut out, resp.as_str());
    push_end(&mut out, "s:Body");
    push_end(&mut out, "s:Envelope");
    proof {
        reveal(soap_response_spec);
    }
    out
}

/// The SOAP fault envelope, with the code, string and description escaped
/// as XML text.
#[verifier::opaque]
pub open spec fn soap_fault_spec(
    fault_code: Seq<char>,
    fault_string: Seq<char>,
    error_code: nat,
    error_desc: Seq<char>,
) -> Seq<char> {
    "<?xml version=\"1.0\" encoding=\"UTF-8\"?>\n<s:Envelope xmlns:s=\"http://schemas.xmlsoap.org/soap/envelope/\" s:encodingStyle=\"http://schemas.xmlsoap.org/soap/encoding/\">\n  <s:Body>\n    <s:Fault>\n      <faultcode>"@
        + escape_spec(fault_code) + "</faultcode>\n      <faultstring>"@ + escape_spec(fault_string)
        + "</faultstring>\n      <detail>\n        <UPnPError xmlns=\"urn:schemas-upnp-org:control-1-0\">\n          <errorCode>"@
        + decimal(error_code) + "</errorCode>\n          <errorDescription>"@ + escape_spec(error_desc)
        + "</errorDescription>\n        </UPnPError>\n      </detail>\n    </s:Fault>\n  </s:Body>\n</s:Envelope>"@
}

/// Build a SOAP fault response; the texts are escaped, so every fault is
/// well-formed XML.
pub fn soap_fault(fault_code: &str, fault_string: &str, error_code: u32, error_desc: &str) -> (r: String)
    ensures
        r@ == soap_fault_spec(fault_code@, fault_string@, error_code as nat, error_desc@),
{
    let mut s = String::from_str(
        "<?xml version=\"1.0\" encoding=\"UTF-8\"?>\n<s:Envelope xmlns:s=\"http://schemas.xmlsoap.org/soap/envelope/\" s:encodingStyle=\"http://schemas.xmlsoap.org/soap/encoding/\">\n  <s:Body>\n    <s:Fault>\n      <faultcode>",
    );
    let code_text = escape_xml(fault_code);
    push_str(&mut s, code_text.as_str());
    push_str(&mut s, "</faultcode>\n      <faultstring>");
    let string_text = escape_xml(fault_string);
    push_str(&mut s, string_text.as_str());
    push_str(
        &mut s,
        "</faultstring>\n      <detail>\n        <UPnPError xmlns=\"urn:schemas-upnp-org:control-1-0\">\n          <errorCode>",
    );
    let code = decimal_string(error_code as u64);
    push_str(&mut s, code.as_str());
    push_str(&mut s, "</errorCode>\n          <errorDescription>");
    let desc_text = escape_xml(error_desc);
    push_str(&mut s, desc_text.as_str());
    push_str(
        &mut s,
        "</errorDescription>\n        </UPnPError>\n      </detail>\n    </s:Fault>\n  </s:Body>\n</s:Envelope>",
    );
    proof {
        reveal(soap_fault_spec);
    }
    s
}

/// Whether `c` does not occur in `s`.
pub open spec fn lacks(s: Seq<char>, c: char) -> bool {
    forall|i: int| 0 <= i < s.len() ==> s[i] != c
}

/// Whether an event opens an element with this qualified name.
pub open spec fn opens(ev: XmlEvent, name: Seq<char>) -> bool {
    ev matches XmlEvent::Start(n) && n@ == vstd::utf8::encode_utf8(name)
}

/// Whether an event closes an element with this qualified name.
pub open spec fn closes(ev: XmlEvent, name: Seq<char>) -> bool {
    ev matches XmlEvent::End(n) && n@ == vstd::utf8::encode_utf8(name)
}

/// Whether an event is this text, unescaped.
pub open spec fn is_text(ev: XmlEvent, text: Seq<char>) -> bool {
    ev matches XmlEvent::Text(t) && t matches Ok(s) && s@ == text
}

/// Whether these are the events of a request envelope (the shape
/// `build_soap_envelope` writes) for an action and its arguments, each
/// argument with a non-empty value: the declaration; the opening
/// `s:Envelope`, `s:Body` and `u:{action}`; each argument's opening tag, text
/// and closing tag; and the closing tags.
pub open spec fn envelope_events(events: Seq<XmlEvent>, action: Seq<char>, args: Seq<(Seq<char>, Seq<char>)>) -> bool {
    let n = args.len() as int;
    &&& events.len() == 3 * n + 7
    &&& events[0] is Other
    &&& opens(events[1], "s:Envelope"@)
    &&& opens(events[2], "s:Body"@)
    &&& opens(events[3], "u:"@ + action)
    &&& forall|i: int|
        0 <= i < n ==> opens(#[trigger] events[4 + 3 * i], args[i].0) && is_text(events[5 + 3 * i], args[i].1)
            && closes(events[6 + 3 * i], args[i].0)
    &&& closes(events[3 * n + 4], "u:"@ + action)
    &&& closes(events[3 * n + 5], "s:Body"@)
    &&& closes(events[3 * n + 6], "s:Envelope"@)
}

/// The arguments as a map; a later one wins over an earlier one of the same
/// name.
pub open spec fn args_map(args: Seq<(Seq<char>, Seq<char>)>) -> Map<Seq<char>, Seq<char>>
    decreases args.len(),
{
    if args.len() == 0 {
        Map::empty()
    } else {
        args_map(args.drop_last()).insert(args.last().0, args.last().1)
    }
}

/// Splitting at the last `c` finds the one before a tail without `c`.
proof fn lemma_rsplit_at(p: Seq<char>, c: char, q: Seq<char>)
    requires
        lacks(q, c),
    ensures
        rsplit_once_spec(p + seq![c] + q, c) == Some((p, q)),
{
    let s = p + seq![c] + q;
    let i = p.len() as int;
    assert(is_last_at(s, c, i)) by {
        assert forall|j: int| i < j < s.len() implies s[j] != c by {
            assert(s[j] == q[j - i - 1]);
        }
    }
    let k = choose|k: int| is_last_at(s, c, k);
    assert(k == i) by {
        if k < i {
            assert(s[i] == c);
        }
        if k > i {
            assert(s[k] == q[k - i - 1]);
        }
    }
    assert(s.take(i) =~= p);
    assert(s.skip(i + 1) =~= q);
}

/// A name without `:` is its own local name.
proof fn lemma_local_plain(q: Seq<char>)
    requires
        lacks(q, ':'),
    ensures
        local_name_of_bytes(vstd::utf8::encode_utf8(q)) == q,
{
    vstd::utf8::encode_utf8_valid_utf8(q);
    vstd::utf8::encode_utf8_decode_utf8(q);
    if exists|i: int| is_last_at(q, ':', i) {
        let i = choose|i: int| is_last_at(q, ':', i);
        assert(q[i] != ':');
    }
}

/// A prefixed name's local name is what follows the prefix.
proof fn lemma_local_prefixed(p: Seq<char>, q: Seq<char>)
    requires
        lacks(q, ':'),
    ensures
        local_name_of_bytes(vstd::utf8::encode_utf8(p + seq![':'] + q)) == q,
{
    vstd::utf8::encode_utf8_valid_utf8(p + seq![':'] + q);
    vstd::utf8::encode_utf8_decode_utf8(p + seq![':'] + q);
    lemma_rsplit_at(p, ':', q);
}

/// The header `"{service}#{action}"` names that service and action.
proof fn lemma_header(st: Seq<char>, action: Seq<char>)
    requires
        lacks(st, '"'),
        lacks(action, '"'),
        lacks(action, '#'),
    ensures
        soap_header_spec(seq!['"'] + st + seq!['#'] + action + seq!['"']) == Some((st, action)),
{
    let inner = st + seq!['#'] + action;
    let h = seq!['"'] + inner + seq!['"'];
    assert(seq!['"'] + st + seq!['#'] + action + seq!['"'] =~= h);
    assert(h.drop_first()[0] == inner[0]);
    if st.len() > 0 {
        assert(inner[0] == st[0]);
    } else {
        assert(inner[0] == '#');
    }
    assert(leading_count(h.drop_first(), '"') == 0);
    assert(leading_count(h, '"') == 1);
    let rest = h.skip(1);
    assert(rest =~= inner + seq!['"']);
    let rev = rest.reverse();
    assert(rev[0] == '"');
    assert(rev.drop_first()[0] == inner[inner.len() - 1]);
    if action.len() > 0 {
        assert(inner[inner.len() - 1] == action[action.len() - 1]);
    } else {
        assert(inner[inner.len() - 1] == '#');
    }
    assert(leading_count(rev.drop_first(), '"') == 0);
    assert(leading_count(rev, '"') == 1);
    assert(trim_matches_spec(h, '"') =~= inner);
    lemma_rsplit_at(st, '#', action);
}

/// The reader's state after the events of the first `k` arguments.
pub open spec fn in_action(args: Map<Seq<char>, Seq<char>>) -> ScanState {
    ScanState { inside_body: true, inside_action: true, current_arg: None, args }
}

/// Reading one more argument adds it to the map.
proof fn lemma_scan_arg(events: Seq<XmlEvent>, action: Seq<char>, args: Seq<(Seq<char>, Seq<char>)>, k: int)
    requires
        envelope_events(events, action, args),
        0 <= k < args.len(),
        lacks(args[k].0, ':'),
        args[k].0 != "Body"@,
        args[k].0 != action,
        scan_events(events, (4 + 3 * k) as nat, action) == Ok::<ScanState, Seq<char>>(
            in_action(args_map(args.take(k))),
        ),
    ensures
        scan_events(events, (7 + 3 * k) as nat, action) == Ok::<ScanState, Seq<char>>(
            in_action(args_map(args.take(k + 1))),
        ),
{
    let name = args[k].0;
    assert(opens(events[4 + 3 * k], name));
    lemma_local_plain(name);
    reveal_strlit("Body");
    let m0 = args_map(args.take(k));
    let st1 = ScanState { inside_body: true, inside_action: true, current_arg: Some(name), args: m0 };
    assert(scan_events(events, (5 + 3 * k) as nat, action) == Ok::<ScanState, Seq<char>>(st1));
    let m1 = m0.insert(name, args[k].1);
    let st2 = ScanState { inside_body: true, inside_action: true, current_arg: Some(name), args: m1 };
    assert(scan_events(events, (6 + 3 * k) as nat, action) == Ok::<ScanState, Seq<char>>(st2));
    assert(args.take(k + 1).drop_last() =~= args.take(k));
    assert(args_map(args.take(k + 1)) == m1);
    assert(scan_events(events, (7 + 3 * k) as nat, action) == Ok::<ScanState, Seq<char>>(in_action(m1)));
}

/// The reader's state after the opening tags and the first `k` arguments.
proof fn lemma_scan_args(events: Seq<XmlEvent>, action: Seq<char>, args: Seq<(Seq<char>, Seq<char>)>, k: int)
    requires
        envelope_events(events, action, args),
        0 <= k <= args.len(),
        forall|i: int|
            0 <= i < args.len() ==> lacks(#[trigger] args[i].0, ':') && args[i].0 != "Body"@ && args[i].0
                != action,
        scan_events(events, 4, action) == Ok::<ScanState, Seq<char>>(in_action(Map::empty())),
    ensures
        scan_events(events, (4 + 3 * k) as nat, action) == Ok::<ScanState, Seq<char>>(
            in_action(args_map(args.take(k))),
        ),
    decreases k,
{
    if k == 0 {
        assert(args.take(0) =~= Seq::<(Seq<char>, Seq<char>)>::empty());
    } else {
        lemma_scan_args(events, action, args, k - 1);
        lemma_scan_arg(events, action, args, k - 1);
    }
}

/// Reading back a request envelope gives what was written: for the events of
/// an envelope of an action with its arguments (see `envelope_events`), the
/// request with the header `"{service}#{action}"` reads as that service,
/// that action and those arguments. The names are those XML allows: no `"`
/// in the service type, no `"`, `#` or `:` in the action, no `:` in an
/// argument's name; the action is not `Body`, and no argument is named
/// `Body` or like the action.
pub proof fn envelope_reads_back(
    service_type: Seq<char>,
    action: Seq<char>,
    args: Seq<(Seq<char>, Seq<char>)>,
    events: Seq<XmlEvent>,
)
    requires
        envelope_events(events, action, args),
        lacks(service_type, '"'),
        lacks(action, '"'),
        lacks(action, '#'),
        lacks(action, ':'),
        action != "Body"@,
        forall|i: int|
            0 <= i < args.len() ==> lacks(#[trigger] args[i].0, ':') && args[i].0 != "Body"@ && args[i].0
                != action,
    ensures
        parse_soap_spec(seq!['"'] + service_type + seq!['#'] + action + seq!['"'], events) == Ok::<
            (Seq<char>, Seq<char>, Map<Seq<char>, Seq<char>>),
            Seq<char>,
        >((service_type, action, args_map(args))),
{
    lemma_header(service_type, action);
    reveal_strlit("s:Envelope");
    reveal_strlit("s:Body");
    reveal_strlit("u:");
    reveal_strlit("Body");
    reveal_strlit("Envelope");
    reveal_strlit("s");
    reveal_strlit("u");
    assert("s:Envelope"@ =~= "s"@ + seq![':'] + "Envelope"@);
    assert("s:Body"@ =~= "s"@ + seq![':'] + "Body"@);
    assert("u:"@ + action =~= "u"@ + seq![':'] + action);
    lemma_local_prefixed("s"@, "Envelope"@);
    lemma_local_prefixed("s"@, "Body"@);
    lemma_local_prefixed("u"@, action);
    assert(scan_events(events, 1, action) == Ok::<ScanState, Seq<char>>(scan_start()));
    assert(scan_events(events, 2, action) == Ok::<ScanState, Seq<char>>(scan_start()));
    let b = ScanState { inside_body: true, inside_action: false, current_arg: None, args: Map::empty() };
    assert(scan_events(events, 3, action) == Ok::<ScanState, Seq<char>>(b));
    assert(scan_events(events, 4, action) == Ok::<ScanState, Seq<char>>(in_action(Map::empty())));
    let n = args.len() as int;
    lemma_scan_args(events, action, args, n);
    assert(args.take(n) =~= args);
    let m = args_map(args);
    let st1 = ScanState { inside_body: true, inside_action: false, current_arg: None, args: m };
    assert(scan_events(events, (3 * n + 5) as nat, action) == Ok::<ScanState, Seq<char>>(st1));
    let st2 = ScanState { inside_body: false, inside_action: false, current_arg: None, args: m };
    assert(scan_events(events, (3 * n + 6) as nat, action) == Ok::<ScanState, Seq<char>>(st2));
    assert(scan_events(events, (3 * n + 7) as nat, action) == Ok::<ScanState, Seq<char>>(st2));
}

} // verus!
