//! SSDP (UPnP discovery): the messages a media server sends, its answer to
//! an `M-SEARCH`, and what a control point reads from a search response.

use vstd::prelude::*;

use crate::text::{
    chars_of, decimal, decimal_string, has_prefix, has_prefix_ascii_upper, lines, lines_spec,
    push_str, starts_with, starts_with_ascii_upper, str_eq, string_of, trim, trim_spec,
};

verus! {

broadcast use vstd::seq_lib::group_seq_properties;

/// How long, in seconds, an announcement stays valid.
pub const CACHE_CONTROL_SECS: u32 = 1800;

/// The version this server reports in its `SERVER` header.
pub const PKG_VERSION: &'static str = "0.1.0";

/// The `NOTIFY ... ssdp:alive` message.
pub open spec fn notify_alive_spec(
    location: Seq<char>,
    nt: Seq<char>,
    usn: Seq<char>,
    server: Seq<char>,
    secs: nat,
) -> Seq<char> {
    "NOTIFY * HTTP/1.1\r\nHOST: 239.255.255.250:1900\r\nCACHE-CONTROL: max-age="@ + decimal(secs)
        + "\r\nLOCATION: "@ + location + "\r\nNT: "@ + nt + "\r\nNTS: ssdp:alive\r\nSERVER: "@
        + server + "\r\nUSN: "@ + usn + "\r\n\r\n"@
}

/// Build an SSDP alive notification.
pub fn notify_alive(location: &str, nt: &str, usn: &str, server: &str, cache_control_secs: u32) -> (r: String)
    ensures
        r@ == notify_alive_spec(location@, nt@, usn@, server@, cache_control_secs as nat),
{
    let mut s = String::from_str(
        "NOTIFY * HTTP/1.1\r\nHOST: 239.255.255.250:1900\r\nCACHE-CONTROL: max-age=",
    );
    let secs = decimal_string(cache_control_secs as u64);
    push_str(&mut s, secs.as_str());
    push_str(&mut s, "\r\nLOCATION: ");
    push_str(&mut s, location);
    push_str(&mut s, "\r\nNT: ");
    push_str(&mut s, nt);
    push_str(&mut s, "\r\nNTS: ssdp:alive\r\nSERVER: ");
    push_str(&mut s, server);
    push_str(&mut s, "\r\nUSN: ");
    push_str(&mut s, usn);
    push_str(&mut s, "\r\n\r\n");
    s
}

/// The `NOTIFY ... ssdp:byebye` message.
pub open spec fn notify_byebye_spec(nt: Seq<char>, usn: Seq<char>) -> Seq<char> {
    "NOTIFY * HTTP/1.1\r\nHOST: 239.255.255.250:1900\r\nNT: "@ + nt + "\r\nNTS: ssdp:byebye\r\nUSN: "@
        + usn + "\r\n\r\n"@
}

/// Build an SSDP byebye notification.
pub fn notify_byebye(nt: &str, usn: &str) -> (r: String)
    ensures
        r@ == notify_byebye_spec(nt@, usn@),
{
    let mut s = String::from_str("NOTIFY * HTTP/1.1\r\nHOST: 239.255.255.250:1900\r\nNT: ");
    push_str(&mut s, nt);
    push_str(&mut s, "\r\nNTS: ssdp:byebye\r\nUSN: ");
    push_str(&mut s, usn);
    push_str(&mut s, "\r\n\r\n");
    s
}

/// The answer to an `M-SEARCH`, dated `date`.
pub open spec fn search_response_spec(
    location: Seq<char>,
    st: Seq<char>,
    usn: Seq<char>,
    server: Seq<char>,
    secs: nat,
    date: Seq<char>,
) -> Seq<char> {
    "HTTP/1.1 200 OK\r\nCACHE-CONTROL: max-age="@ + decimal(secs) + "\r\nDATE: "@ + date
        + "\r\nEXT:\r\nLOCATION: "@ + location + "\r\nSERVER: "@ + server + "\r\nST: "@ + st
        + "\r\nUSN: "@ + usn + "\r\n\r\n"@
}

/// Build the answer to an `M-SEARCH`, dated `date` (an HTTP date that the
/// caller reads from its clock).
pub fn search_response(
    location: &str,
    st: &str,
    usn: &str,
    server: &str,
    cache_control_secs: u32,
    date: &str,
) -> (r: String)
    ensures
        r@ == search_response_spec(location@, st@, usn@, server@, cache_control_secs as nat, date@),
{
    let mut s = String::from_str("HTTP/1.1 200 OK\r\nCACHE-CONTROL: max-age=");
    let secs = decimal_string(cache_control_secs as u64);
    push_str(&mut s, secs.as_str());
    push_str(&mut s, "\r\nDATE: ");
    push_str(&mut s, date);
    push_str(&mut s, "\r\nEXT:\r\nLOCATION: ");
    push_str(&mut s, location);
    push_str(&mut s, "\r\nSERVER: ");
    push_str(&mut s, server);
    push_str(&mut s, "\r\nST: ");
    push_str(&mut s, st);
    push_str(&mut s, "\r\nUSN: ");
    push_str(&mut s, usn);
    push_str(&mut s, "\r\n\r\n");
    s
}

/// The name-based UUID (version 5, DNS namespace) of a server name, as the
/// `uuid` crate writes it.
pub uninterp spec fn name_uuid(name: Seq<char>) -> Seq<char>;

/// The UUID a server advertises: `uuid::Uuid::new_v5` over the DNS
/// namespace and the bytes of its friendly name, written in the crate's
/// hyphenated lower-case form (36 characters). The contract names the
/// result (it depends on the name alone) and states its length.
#[verifier::external_body]
pub(crate) fn name_uuid_of(name: &str) -> (r: String)
    ensures
        r@ == name_uuid(name@),
        r@.len() == 36,
{
    uuid::Uuid::new_v5(&uuid::Uuid::NAMESPACE_DNS, name.as_bytes()).to_string()
}

/// The UUID a server with this friendly name advertises; the same name
/// gives the same UUID on every start.
pub fn server_uuid(friendly_name: &str) -> (r: String)
    ensures
        r@ == name_uuid(friendly_name@),
        r@.len() == 36,
{
    name_uuid_of(friendly_name)
}

/// The notification types and unique service names a `MediaServer:1`
/// device advertises.
pub open spec fn device_nts_spec(uuid: Seq<char>) -> Seq<(Seq<char>, Seq<char>)> {
    let udn = "uuid:"@ + uuid;
    seq![
        ("upnp:rootdevice"@, udn + "::upnp:rootdevice"@),
        (udn, udn),
        (
            "urn:schemas-upnp-org:device:MediaServer:1"@,
            udn + "::urn:schemas-upnp-org:device:MediaServer:1"@,
        ),
        (
            "urn:schemas-upnp-org:service:ContentDirectory:1"@,
            udn + "::urn:schemas-upnp-org:service:ContentDirectory:1"@,
        ),
        (
            "urn:schemas-upnp-org:service:ConnectionManager:1"@,
            udn + "::urn:schemas-upnp-org:service:ConnectionManager:1"@,
        ),
    ]
}

/// What a device advertises: five notification types, the second the
/// device's own UDN (`uuid:` and the UUID) with the UDN as its USN, and
/// every other USN the UDN, `::` and its notification type; the root
/// device entry comes first. No two entries share a notification type or a
/// USN.
pub proof fn law_device_usns(uuid: Seq<char>)
    ensures
        ({
            let udn = "uuid:"@ + uuid;
            let nts = device_nts_spec(uuid);
            &&& nts.len() == 5
            &&& nts[0].0 == "upnp:rootdevice"@
            &&& nts[1] == (udn, udn)
            &&& forall|i: int| 0 <= i < 5 && i != 1 ==> #[trigger] nts[i].1 == udn + "::"@ + nts[i].0
            &&& forall|i: int, j: int| 0 <= i < 5 && 0 <= j < 5 && i != j ==> #[trigger] nts[i].0 != #[trigger] nts[j].0
            &&& forall|i: int, j: int| 0 <= i < 5 && 0 <= j < 5 && i != j ==> nts[i].1 != nts[j].1
        }),
{
    reveal_strlit("uuid:");
    reveal_strlit("::");
    reveal_strlit("upnp:rootdevice");
    reveal_strlit("::upnp:rootdevice");
    reveal_strlit("urn:schemas-upnp-org:device:MediaServer:1");
    reveal_strlit("::urn:schemas-upnp-org:device:MediaServer:1");
    reveal_strlit("urn:schemas-upnp-org:service:ContentDirectory:1");
    reveal_strlit("::urn:schemas-upnp-org:service:ContentDirectory:1");
    reveal_strlit("urn:schemas-upnp-org:service:ConnectionManager:1");
    reveal_strlit("::urn:schemas-upnp-org:service:ConnectionManager:1");
    let udn = "uuid:"@ + uuid;
    let nts = device_nts_spec(uuid);
    let t0 = "upnp:rootdevice"@;
    let t2 = "urn:schemas-upnp-org:device:MediaServer:1"@;
    let t3 = "urn:schemas-upnp-org:service:ContentDirectory:1"@;
    let t4 = "urn:schemas-upnp-org:service:ConnectionManager:1"@;
    assert("::upnp:rootdevice"@ =~= "::"@ + t0);
    assert("::urn:schemas-upnp-org:device:MediaServer:1"@ =~= "::"@ + t2);
    assert("::urn:schemas-upnp-org:service:ContentDirectory:1"@ =~= "::"@ + t3);
    assert("::urn:schemas-upnp-org:service:ConnectionManager:1"@ =~= "::"@ + t4);
    assert(udn + "::upnp:rootdevice"@ =~= udn + "::"@ + t0);
    assert(udn + "::urn:schemas-upnp-org:device:MediaServer:1"@ =~= udn + "::"@ + t2);
    assert(udn + "::urn:schemas-upnp-org:service:ContentDirectory:1"@ =~= udn + "::"@ + t3);
    assert(udn + "::urn:schemas-upnp-org:service:ConnectionManager:1"@ =~= udn + "::"@ + t4);
    // The notification types differ: by their first letters, or by a
    // letter where the two service names part.
    assert(udn[0] == 'u' && udn[1] == 'u');
    assert(t0[1] == 'p' && t2[1] == 'r' && t3[1] == 'r' && t4[1] == 'r');
    assert(t2[21] == 'd' && t3[21] == 's' && t4[21] == 's');
    assert(t3[32] == 't' && t4[32] == 'n');
    assert forall|i: int, j: int| 0 <= i < 5 && 0 <= j < 5 && i != j implies #[trigger] nts[i].0 != #[trigger] nts[j].0 by {
        if nts[i].0 == nts[j].0 {
            if (i == 1 || j == 1) {
                assert(nts[i].0[1] == nts[j].0[1]);
            } else if (i == 0 || j == 0) {
                assert(nts[i].0[1] == nts[j].0[1]);
            } else if (i == 2 || j == 2) {
                assert(nts[i].0[21] == nts[j].0[21]);
            } else {
                assert(nts[i].0[32] == nts[j].0[32]);
            }
        }
    }
    assert forall|i: int, j: int| 0 <= i < 5 && 0 <= j < 5 && i != j implies nts[i].1 != nts[j].1 by {
        assert(nts[i].0 != nts[j].0);
        if nts[i].1 == nts[j].1 {
            if i == 1 {
                assert(nts[j].1.len() > udn.len());
            } else if j == 1 {
                assert(nts[i].1.len() > udn.len());
            } else {
                let p = udn + "::"@;
                assert(nts[i].1 =~= p + nts[i].0);
                assert(nts[j].1 =~= p + nts[j].0);
                assert(nts[i].1.skip(p.len() as int) =~= nts[i].0);
                assert(nts[j].1.skip(p.len() as int) =~= nts[j].0);
            }
        }
    }
}

/// The view of a list of string pairs.
pub open spec fn string_pairs_view(v: Seq<(String, String)>) -> Seq<(Seq<char>, Seq<char>)> {
    v.map_values(|p: (String, String)| (p.0@, p.1@))
}

fn concat(a: &str, b: &str) -> (r: String)
    ensures
        r@ == a@ + b@,
{
    let mut s = a.to_owned();
    push_str(&mut s, b);
    s
}

/// The notification types (NT) and USN values a `MediaServer:1` device must
/// advertise.
pub fn device_nts(uuid: &str) -> (r: Vec<(String, String)>)
    ensures
        string_pairs_view(r@) == device_nts_spec(uuid@),
{
    let udn = concat("uuid:", uuid);
    let v = vec![
        (String::from_str("upnp:rootdevice"), concat(udn.as_str(), "::upnp:rootdevice")),
        (udn.clone(), udn.clone()),
        (
            String::from_str("urn:schemas-upnp-org:device:MediaServer:1"),
            concat(udn.as_str(), "::urn:schemas-upnp-org:device:MediaServer:1"),
        ),
        (
            String::from_str("urn:schemas-upnp-org:service:ContentDirectory:1"),
            concat(udn.as_str(), "::urn:schemas-upnp-org:service:ContentDirectory:1"),
        ),
        (
            String::from_str("urn:schemas-upnp-org:service:ConnectionManager:1"),
            concat(udn.as_str(), "::urn:schemas-upnp-org:service:ConnectionManager:1"),
        ),
    ];
    assert(string_pairs_view(v@) =~= device_nts_spec(uuid@));
    v
}

/// Decode bytes as UTF-8 text.
///
/// Calls std's `str::from_utf8`, which succeeds exactly on valid UTF-8 and
/// then yields the decoded characters; the contract states that over vstd's
/// `valid_utf8` and `decode_utf8`.
#[verifier::external_body]
pub(crate) fn utf8_text(data: &[u8]) -> (r: Option<String>)
    ensures
        match r {
            Some(s) => vstd::utf8::valid_utf8(data@) && s@ == vstd::utf8::decode_utf8(data@),
            None => !vstd::utf8::valid_utf8(data@),
        },
{
    std::str::from_utf8(data).ok().map(|s| s.to_owned())
}

/// The first line whose ASCII upper-case form starts with `prefix`.
pub open spec fn first_header_line(ls: Seq<Seq<char>>, prefix: Seq<char>) -> Option<int> {
    if exists|i: int| 0 <= i < ls.len() && has_prefix_ascii_upper(ls[i], prefix) {
        Some(
            choose|i: int|
                0 <= i < ls.len() && has_prefix_ascii_upper(ls[i], prefix) && forall|j: int|
                    0 <= j < i ==> !has_prefix_ascii_upper(#[trigger] ls[j], prefix),
        )
    } else {
        None
    }
}

/// The value of the first header line of a text that starts with `prefix`
/// (compared upper-case): the rest of the line, trimmed.
pub open spec fn header_value_spec(text: Seq<char>, prefix: Seq<char>) -> Option<Seq<char>> {
    let ls = lines_spec(text);
    match first_header_line(ls, prefix) {
        Some(i) => Some(trim_spec(ls[i].skip(prefix.len() as int))),
        None => None,
    }
}

proof fn lemma_first_header_line(ls: Seq<Seq<char>>, prefix: Seq<char>, i: int)
    requires
        0 <= i < ls.len(),
        has_prefix_ascii_upper(ls[i], prefix),
        forall|j: int| 0 <= j < i ==> !has_prefix_ascii_upper(#[trigger] ls[j], prefix),
    ensures
        first_header_line(ls, prefix) == Some(i),
{
    let k = choose|k: int|
        0 <= k < ls.len() && has_prefix_ascii_upper(ls[k], prefix) && forall|j: int|
            0 <= j < k ==> !has_prefix_ascii_upper(#[trigger] ls[j], prefix);
    if k < i {
        assert(!has_prefix_ascii_upper(ls[k], prefix));
    }
    if i < k {
        assert(!has_prefix_ascii_upper(ls[i], prefix));
    }
}

/// Find the value of a header in a message (`LOCATION:`, `ST:`, ...).
pub fn header_value(text: &str, prefix: &str) -> (r: Option<String>)
    ensures
        match r {
            Some(v) => header_value_spec(text@, prefix@) == Some(v@),
            None => header_value_spec(text@, prefix@) is None,
        },
{
    let ls = lines(text);
    let ghost lv = ls@.map_values(|l: Vec<char>| l@);
    let p = chars_of(prefix);
    let mut i: usize = 0;
    while i < ls.len()
        invariant
            i <= ls@.len(),
            lv == ls@.map_values(|l: Vec<char>| l@),
            lv == lines_spec(text@),
            p@ == prefix@,
            forall|j: int| 0 <= j < i ==> !has_prefix_ascii_upper(#[trigger] lv[j], prefix@),
        decreases ls.len() - i,
    {
        if starts_with_ascii_upper(&ls[i], prefix) {
            proof {
                lemma_first_header_line(lv, prefix@, i as int);
            }
            let line = &ls[i];
            let rest = crate::text::substring(line, p.len(), line.len());
            let v = trim(rest.as_str());
            return Some(v);
        }
        i = i + 1;
    }
    None
}

/// Announces and answers discovery for one media server.
pub struct SsdpService {
    uuid: String,
    location: String,
    server_string: String,
}

/// The view of a service: its UUID, its description URL and its `SERVER`
/// string.
pub struct SsdpServiceView {
    pub uuid: Seq<char>,
    pub location: Seq<char>,
    pub server_string: Seq<char>,
}

impl View for SsdpService {
    type V = SsdpServiceView;

    closed spec fn view(&self) -> SsdpServiceView {
        SsdpServiceView {
            uuid: self.uuid@,
            location: self.location@,
            server_string: self.server_string@,
        }
    }
}

/// Whether an `ST` value asks for a notification type.
pub open spec fn st_matches(st: Seq<char>, nt: Seq<char>) -> bool {
    st == "ssdp:all"@ || st == nt
}

/// The notification types and USNs an `ST` value selects, in advertising
/// order.
pub open spec fn selected_nts(st: Seq<char>, nts: Seq<(Seq<char>, Seq<char>)>) -> Seq<(Seq<char>, Seq<char>)> {
    nts.filter(|p: (Seq<char>, Seq<char>)| st_matches(st, p.0))
}

/// What `handle_msearch` answers to a request: `None` when it stays silent
/// (not UTF-8, not an `M-SEARCH`, or no `ST` header), else the `ST` value.
pub open spec fn msearch_target(data: Seq<u8>) -> Option<Seq<char>> {
    if !vstd::utf8::valid_utf8(data) {
        None
    } else {
        let text = vstd::utf8::decode_utf8(data);
        if !has_prefix(text, "M-SEARCH"@) {
            None
        } else {
            header_value_spec(text, "ST:"@)
        }
    }
}

impl SsdpService {
    /// A service for the device `uuid` whose description lives at
    /// `{base_url}/device.xml`.
    pub fn new(uuid: String, base_url: &str) -> (r: Self)
        ensures
            r@.uuid == uuid@,
            r@.location == base_url@ + "/device.xml"@,
            r@.server_string == "Linux/1.0 UPnP/1.0 WiiMDLNA/"@ + PKG_VERSION@,
    {
        let location = concat(base_url, "/device.xml");
        let server_string = concat("Linux/1.0 UPnP/1.0 WiiMDLNA/", PKG_VERSION);
        SsdpService { uuid, location, server_string }
    }

    /// The notification types and USNs this device advertises.
    pub fn nts(&self) -> (r: Vec<(String, String)>)
        ensures
            string_pairs_view(r@) == device_nts_spec(self@.uuid),
    {
        device_nts(self.uuid.as_str())
    }

    /// The alive notifications to send, one per notification type.
    pub fn alive_messages(&self) -> (r: Vec<String>)
        ensures
            r@.len() == 5,
            forall|i: int|
                0 <= i < 5 ==> #[trigger] r@[i]@ == notify_alive_spec(
                    self@.location,
                    device_nts_spec(self@.uuid)[i].0,
                    device_nts_spec(self@.uuid)[i].1,
                    self@.server_string,
                    CACHE_CONTROL_SECS as nat,
                ),
    {
        let nts = self.nts();
        let mut out: Vec<String> = Vec::new();
        let mut i: usize = 0;
        while i < nts.len()
            invariant
                i <= nts@.len(),
                string_pairs_view(nts@) == device_nts_spec(self@.uuid),
                out@.len() == i,
                forall|j: int|
                    0 <= j < i ==> #[trigger] out@[j]@ == notify_alive_spec(
                        self@.location,
                        device_nts_spec(self@.uuid)[j].0,
                        device_nts_spec(self@.uuid)[j].1,
                        self@.server_string,
                        CACHE_CONTROL_SECS as nat,
                    ),
            decreases nts.len() - i,
        {
            let (nt, usn) = &nts[i];
            assert(string_pairs_view(nts@)[i as int] == (nt@, usn@));
            let m = notify_alive(
                self.location.as_str(),
                nt.as_str(),
                usn.as_str(),
                self.server_string.as_str(),
                CACHE_CONTROL_SECS,
            );
            out.push(m);
            i = i + 1;
        }
        assert(device_nts_spec(self@.uuid).len() == 5);
        out
    }

    /// The byebye notifications to send, one per notification type.
    pub fn byebye_messages(&self) -> (r: Vec<String>)
        ensures
            r@.len() == 5,
            forall|i: int|
                0 <= i < 5 ==> #[trigger] r@[i]@ == notify_byebye_spec(
                    device_nts_spec(self@.uuid)[i].0,
                    device_nts_spec(self@.uuid)[i].1,
                ),
    {
        let nts = self.nts();
        let mut out: Vec<String> = Vec::new();
        let mut i: usize = 0;
        while i < nts.len()
            invariant
                i <= nts@.len(),
                string_pairs_view(nts@) == device_nts_spec(self@.uuid),
                out@.len() == i,
                forall|j: int|
                    0 <= j < i ==> #[trigger] out@[j]@ == notify_byebye_spec(
                        device_nts_spec(self@.uuid)[j].0,
                        device_nts_spec(self@.uuid)[j].1,
                    ),
            decreases nts.len() - i,
        {
            let (nt, usn) = &nts[i];
            assert(string_pairs_view(nts@)[i as int] == (nt@, usn@));
            out.push(notify_byebye(nt.as_str(), usn.as_str()));
            i = i + 1;
        }
        assert(device_nts_spec(self@.uuid).len() == 5);
        out
    }

    /// Answer an `M-SEARCH` request: one response per advertised type that
    /// its `ST` header asks for (`ssdp:all` asks for every one), each dated
    /// `date`; nothing for a request that is not UTF-8, not an `M-SEARCH`,
    /// or has no `ST` header.
    pub fn handle_msearch(&self, data: &[u8], date: &str) -> (r: Vec<String>)
        ensures
            msearch_target(data@) is None ==> r@.len() == 0,
            msearch_target(data@) is Some ==> r@.len() == selected_nts(
                msearch_target(data@)->0,
                device_nts_spec(self@.uuid),
            ).len(),
            forall|i: int|
                msearch_target(data@) is Some && 0 <= i < r@.len() ==> #[trigger] r@[i]@ == search_response_spec(
                    self@.location,
                    selected_nts(msearch_target(data@)->0, device_nts_spec(self@.uuid))[i].0,
                    selected_nts(msearch_target(data@)->0, device_nts_spec(self@.uuid))[i].1,
                    self@.server_string,
                    CACHE_CONTROL_SECS as nat,
                    date@,
                ),
    {
        let text = match utf8_text(data) {
            Some(t) => t,
            None => return Vec::new(),
        };
        if !starts_with(text.as_str(), "M-SEARCH") {
            return Vec::new();
        }
        let st = match header_value(text.as_str(), "ST:") {
            Some(s) => s,
            None => return Vec::new(),
        };
        assert(text@ == vstd::utf8::decode_utf8(data@));
        assert(msearch_target(data@) == Some(st@));
        let nts = self.nts();
        let ghost all = device_nts_spec(self@.uuid);
        let mut out: Vec<String> = Vec::new();
        let mut i: usize = 0;
        while i < nts.len()
            invariant
                i <= nts@.len(),
                string_pairs_view(nts@) == all,
                all == device_nts_spec(self@.uuid),
                out@.len() == selected_nts(st@, all.take(i as int)).len(),
                forall|j: int|
                    0 <= j < out@.len() ==> #[trigger] out@[j]@
                        == search_response_spec(
                        self@.location,
                        selected_nts(st@, all.take(i as int))[j].0,
                        selected_nts(st@, all.take(i as int))[j].1,
                        self@.server_string,
                        CACHE_CONTROL_SECS as nat,
                        date@,
                    ),
            decreases nts.len() - i,
        {
            let (nt, usn) = &nts[i];
            let ghost before = selected_nts(st@, all.take(i as int));
            proof {
                reveal(Seq::filter);
                assert(string_pairs_view(nts@)[i as int] == (nt@, usn@));
                assert(all.take(i + 1).drop_last() =~= all.take(i as int));
                assert(all.take(i + 1).last() == (nt@, usn@));
            }
            if str_eq(st.as_str(), "ssdp:all") || str_eq(st.as_str(), nt.as_str()) {
                let resp = search_response(
                    self.location.as_str(),
                    nt.as_str(),
                    usn.as_str(),
                    self.server_string.as_str(),
                    CACHE_CONTROL_SECS,
                    date,
                );
                out.push(resp);
                proof {
                    let after = selected_nts(st@, all.take(i + 1));
                    assert(after == before.push((nt@, usn@)));
                    assert forall|j: int| 0 <= j < out@.len() implies #[trigger] out@[j]@ == search_response_spec(
                        self@.location,
                        after[j].0,
                        after[j].1,
                        self@.server_string,
                        CACHE_CONTROL_SECS as nat,
                        date@,
                    ) by {
                        if j < out@.len() - 1 {
                            assert(after[j] == before[j]);
                        }
                    }
                }
            } else {
                proof {
                    assert(selected_nts(st@, all.take(i + 1)) == before);
                }
            }
            i = i + 1;
        }
        assert(string_pairs_view(nts@).len() == nts@.len());
        assert(all.take(all.len() as int) =~= all);
        assert(out@.len() == selected_nts(st@, all).len());
        proof {
            let sel = selected_nts(msearch_target(data@)->0, device_nts_spec(self@.uuid));
            assert(sel == selected_nts(st@, all));
            assert forall|k: int| msearch_target(data@) is Some && 0 <= k < out@.len() implies #[trigger] out@[k]@ == search_response_spec(
                self@.location,
                sel[k].0,
                sel[k].1,
                self@.server_string,
                CACHE_CONTROL_SECS as nat,
                date@,
            ) by {
            }
        }
        out
    }
}

/// A device found by an `M-SEARCH`: where its description lives and its
/// unique service name.
#[derive(Debug)]
pub struct DiscoveredLocation {
    pub location: String,
    pub usn: String,
}

/// What a search response names: its `LOCATION` (required) and its `USN`
/// (empty when missing), both trimmed.
pub open spec fn parse_response_spec(text: Seq<char>) -> Option<(Seq<char>, Seq<char>)> {
    match header_value_spec(text, "LOCATION:"@) {
        None => None,
        Some(loc) => Some(
            (
                loc,
                match header_value_spec(text, "USN:"@) {
                    Some(u) => u,
                    None => Seq::empty(),
                },
            ),
        ),
    }
}

/// Read the location and USN from an SSDP search response.
pub fn parse_response(text: &str) -> (r: Option<DiscoveredLocation>)
    ensures
        match parse_response_spec(text@) {
            Some((loc, usn)) => r is Some && r->0.location@ == loc && r->0.usn@ == usn,
            None => r is None,
        },
{
    let location = match header_value(text, "LOCATION:") {
        Some(l) => l,
        None => return None,
    };
    let usn = match header_value(text, "USN:") {
        Some(u) => u,
        None => String::new(),
    };
    Some(DiscoveredLocation { location, usn })
}

} // verus!
