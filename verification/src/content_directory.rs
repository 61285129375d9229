//! The UPnP ContentDirectory:1 service of the DLNA server: browsing the
//! library and the service's small queries.

use vstd::prelude::*;

use crate::didl::{didl_open, object_xml, DidlWriter};
use crate::dlna_library::Library;
use crate::media::{children_spec, LibraryObject};
use crate::soap::{soap_fault, soap_fault_spec, soap_response, soap_response_spec, values_view, SoapAction};
use crate::text::{decimal, decimal_string, parse_usize, parsed_usize, str_eq};
use crate::xml::{end_tag, pairs_view};

verus! {

/// The service type of ContentDirectory:1.
pub const SERVICE_TYPE: &'static str = "urn:schemas-upnp-org:service:ContentDirectory:1";

/// An argument's value, or a default when the request leaves it out.
pub open spec fn arg_or(args: Map<Seq<char>, Seq<char>>, name: Seq<char>, default: Seq<char>) -> Seq<char> {
    if args.contains_key(name) {
        args[name]
    } else {
        default
    }
}

/// A numeric argument's value; 0 when it is missing or not a number.
pub open spec fn num_arg(args: Map<Seq<char>, Seq<char>>, name: Seq<char>) -> nat {
    if args.contains_key(name) {
        match parsed_usize(args[name]) {
            Some(n) => n as nat,
            None => 0,
        }
    } else {
        0
    }
}

/// The elements for a list of objects, in order.
pub open spec fn objects_xml(objs: Seq<LibraryObject>, base_url: Seq<char>) -> Seq<char>
    decreases objs.len(),
{
    if objs.len() == 0 {
        Seq::empty()
    } else {
        objects_xml(objs.drop_last(), base_url) + object_xml(objs.last(), base_url)
    }
}

/// A DIDL-Lite document holding these objects.
#[verifier::opaque]
pub open spec fn didl_spec(objs: Seq<LibraryObject>, base_url: Seq<char>) -> Seq<char> {
    didl_open() + objects_xml(objs, base_url) + end_tag("DIDL-Lite"@)
}

/// The page of a list that starts at `start` and holds at most `count`
/// items (`skip(start).take(count)`).
pub open spec fn page<T>(s: Seq<T>, start: nat, count: nat) -> Seq<T> {
    let a = if start < s.len() { start } else { s.len() };
    let b = if a + count < s.len() { a + count } else { s.len() };
    s.subrange(a as int, b as int)
}

/// The response to a `Browse` request, or the fault and status.
pub open spec fn browse_spec(
    args: Map<Seq<char>, Seq<char>>,
    objects: Map<Seq<char>, LibraryObject>,
    update_id: nat,
    base_url: Seq<char>,
) -> Result<(Seq<char>, u16), (Seq<char>, u16)> {
    let object_id = arg_or(args, "ObjectID"@, "0"@);
    let flag = arg_or(args, "BrowseFlag"@, "BrowseDirectChildren"@);
    let start = num_arg(args, "StartingIndex"@);
    let requested = num_arg(args, "RequestedCount"@);
    if flag == "BrowseMetadata"@ {
        if objects.contains_key(object_id) {
            Ok(
                (
                    soap_response_spec(
                        SERVICE_TYPE@,
                        "Browse"@,
                        seq![
                            ("Result"@, didl_spec(seq![objects[object_id]], base_url)),
                            ("NumberReturned"@, "1"@),
                            ("TotalMatches"@, "1"@),
                            ("UpdateID"@, decimal(update_id)),
                        ],
                    ),
                    200,
                ),
            )
        } else {
            Err((soap_fault_spec("s:Client"@, "UPnPError"@, 701, "No such object"@), 500))
        }
    } else if flag == "BrowseDirectChildren"@ {
        let children = children_spec(objects, object_id);
        let count = if requested == 0 { children.len() } else { requested };
        let pg = page(children, start, count);
        Ok(
            (
                soap_response_spec(
                    SERVICE_TYPE@,
                    "Browse"@,
                    seq![
                        ("Result"@, didl_spec(pg, base_url)),
                        ("NumberReturned"@, decimal(pg.len())),
                        ("TotalMatches"@, decimal(children.len())),
                        ("UpdateID"@, decimal(update_id)),
                    ],
                ),
                200,
            ),
        )
    } else {
        Err((soap_fault_spec("s:Client"@, "UPnPError"@, 402, "Invalid Args"@), 500))
    }
}

/// Whether an exec result matches a spec result.
pub open spec fn result_matches(
    r: Result<(String, u16), (String, u16)>,
    s: Result<(Seq<char>, u16), (Seq<char>, u16)>,
) -> bool {
    match (r, s) {
        (Ok((body, code)), Ok((sb, sc))) => body@ == sb && code == sc,
        (Err((body, code)), Err((sb, sc))) => body@ == sb && code == sc,
        _ => false,
    }
}

fn arg_value<'a>(action: &'a SoapAction, name: &str, default: &'a str) -> (r: &'a str)
    ensures
        r@ == arg_or(values_view(action.args@), name@, default@),
{
    match action.args.get(name) {
        Some(v) => v.as_str(),
        None => default,
    }
}

fn num_value(action: &SoapAction, name: &str) -> (r: usize)
    ensures
        r as nat == num_arg(values_view(action.args@), name@),
{
    match action.args.get(name) {
        Some(v) => match parse_usize(v.as_str()) {
            Some(n) => n,
            None => 0,
        },
        None => 0,
    }
}

/// Write the objects of a list into a DIDL-Lite document.
fn didl_for(objs: &Vec<&LibraryObject>, from: usize, to: usize, base_url: &str) -> (r: String)
    requires
        from <= to <= objs@.len(),
    ensures
        r@ == didl_spec(objs@.map_values(|o: &LibraryObject| *o).subrange(from as int, to as int), base_url@),
{
    let ghost all = objs@.map_values(|o: &LibraryObject| *o);
    let mut w = DidlWriter::new();
    let mut i: usize = from;
    while i < to
        invariant
            from <= i <= to <= objs@.len(),
            all == objs@.map_values(|o: &LibraryObject| *o),
            w@ == didl_open() + objects_xml(all.subrange(from as int, i as int), base_url@),
        decreases to - i,
    {
        w.write_object(objs[i], base_url);
        proof {
            let s = all.subrange(from as int, i + 1);
            assert(s.drop_last() =~= all.subrange(from as int, i as int));
            assert(s.last() == *objs@[i as int]);
        }
        i = i + 1;
    }
    let r = w.finish();
    proof {
        reveal(didl_spec);
    }
    r
}

/// The metadata of one object.
fn browse_metadata(library: &Library, object_id: &str, update: &String, base_url: &str) -> (r: Result<(String, u16), (String, u16)>)
    requires
        library.wf(),
    ensures
        library@.objects.contains_key(object_id@) ==> (r matches Ok((body, code)) && code == 200
            && body@ == soap_response_spec(
            SERVICE_TYPE@,
            "Browse"@,
            seq![
                ("Result"@, didl_spec(seq![library@.objects[object_id@]], base_url@)),
                ("NumberReturned"@, "1"@),
                ("TotalMatches"@, "1"@),
                ("UpdateID"@, update@),
            ],
        )),
        !library@.objects.contains_key(object_id@) ==> (r matches Err((body, code)) && code == 500
            && body@ == soap_fault_spec("s:Client"@, "UPnPError"@, 701, "No such object"@)),
{
    match library.get(object_id) {
        None => {
            let body = soap_fault("s:Client", "UPnPError", 701, "No such object");
            Err((body, 500))
        },
        Some(obj) => {
            let one: Vec<&LibraryObject> = vec![obj];
            let result = didl_for(&one, 0, 1, base_url);
            proof {
                assert(one@.map_values(|o: &LibraryObject| *o).subrange(0, 1) =~= seq![*obj]);
            }
            let args = [
                ("Result", result.as_str()),
                ("NumberReturned", "1"),
                ("TotalMatches", "1"),
                ("UpdateID", update.as_str()),
            ];
            proof {
                assert(pairs_view(args@) =~= seq![
                    ("Result"@, result@),
                    ("NumberReturned"@, "1"@),
                    ("TotalMatches"@, "1"@),
                    ("UpdateID"@, update@),
                ]);
            }
            let body = soap_response(SERVICE_TYPE, "Browse", &args);
            Ok((body, 200))
        },
    }
}

/// A page of a container's children.
fn browse_children(library: &Library, object_id: &str, start: usize, requested: usize, update: &String, base_url: &str) -> (r: (String, u16))
    requires
        library.wf(),
    ensures
        ({
            let children = children_spec(library@.objects, object_id@);
            let count = if requested == 0 { children.len() } else { requested as nat };
            let pg = page(children, start as nat, count);
            r.1 == 200 && r.0@ == soap_response_spec(
                SERVICE_TYPE@,
                "Browse"@,
                seq![
                    ("Result"@, didl_spec(pg, base_url@)),
                    ("NumberReturned"@, decimal(pg.len())),
                    ("TotalMatches"@, decimal(children.len())),
                    ("UpdateID"@, update@),
                ],
            )
        }),
{
    let children = library.children_of(object_id);
    let total = children.len();
    let count = if requested == 0 {
        total
    } else {
        requested
    };
    let from = if start < total {
        start
    } else {
        total
    };
    let to = if count < total - from {
        from + count
    } else {
        total
    };
    let result = didl_for(&children, from, to, base_url);
    let returned = decimal_string((to - from) as u64);
    let total_s = decimal_string(total as u64);
    let args = [
        ("Result", result.as_str()),
        ("NumberReturned", returned.as_str()),
        ("TotalMatches", total_s.as_str()),
        ("UpdateID", update.as_str()),
    ];
    proof {
        assert(pairs_view(args@) =~= seq![
            ("Result"@, result@),
            ("NumberReturned"@, returned@),
            ("TotalMatches"@, total_s@),
            ("UpdateID"@, update@),
        ]);
    }
    let body = soap_response(SERVICE_TYPE, "Browse", &args);
    (body, 200)
}

/// Handle a `Browse` request: one object's metadata, or a page of a
/// container's children.
pub fn handle_browse(action: &SoapAction, library: &Library, base_url: &str) -> (r: Result<(String, u16), (String, u16)>)
    requires
        library.wf(),
    ensures
        result_matches(
            r,
            browse_spec(
                values_view(action.args@),
                library@.objects,
                library@.total_tracks,
                base_url@,
            ),
        ),
{
    let object_id = arg_value(action, "ObjectID", "0");
    let browse_flag = arg_value(action, "BrowseFlag", "BrowseDirectChildren");
    let start = num_value(action, "StartingIndex");
    let requested = num_value(action, "RequestedCount");
    let update = decimal_string(library.system_update_id() as u64);
    if str_eq(browse_flag, "BrowseMetadata") {
        browse_metadata(library, object_id, &update, base_url)
    } else if str_eq(browse_flag, "BrowseDirectChildren") {
        Ok(browse_children(library, object_id, start, requested, &update, base_url))
    } else {
        let body = soap_fault("s:Client", "UPnPError", 402, "Invalid Args");
        Err((body, 500))
    }
}

/// The response to a ContentDirectory action, or the fault and status.
pub open spec fn action_spec(
    action: Seq<char>,
    args: Map<Seq<char>, Seq<char>>,
    objects: Map<Seq<char>, LibraryObject>,
    update_id: nat,
    base_url: Seq<char>,
) -> Result<(Seq<char>, u16), (Seq<char>, u16)> {
    if action == "Browse"@ {
        browse_spec(args, objects, update_id, base_url)
    } else if action == "GetSearchCapabilities"@ {
        Ok((soap_response_spec(SERVICE_TYPE@, "GetSearchCapabilities"@, seq![("SearchCaps"@, ""@)]), 200))
    } else if action == "GetSortCapabilities"@ {
        Ok((soap_response_spec(SERVICE_TYPE@, "GetSortCapabilities"@, seq![("SortCaps"@, ""@)]), 200))
    } else if action == "GetSystemUpdateID"@ {
        Ok((soap_response_spec(SERVICE_TYPE@, "GetSystemUpdateID"@, seq![("Id"@, decimal(update_id))]), 200))
    } else {
        Err((soap_fault_spec("s:Client"@, "UPnPError"@, 401, "Invalid Action"@), 401))
    }
}

/// Answer a ContentDirectory action.
pub fn handle_action(action: &SoapAction, library: &Library, base_url: &str) -> (r: Result<(String, u16), (String, u16)>)
    requires
        library.wf(),
    ensures
        result_matches(
            r,
            action_spec(
                action.action_name@,
                values_view(action.args@),
                library@.objects,
                library@.total_tracks,
                base_url@,
            ),
        ),
{
    let name = action.action_name.as_str();
    if str_eq(name, "Browse") {
        handle_browse(action, library, base_url)
    } else if str_eq(name, "GetSearchCapabilities") {
        let args = [("SearchCaps", "")];
        assert(pairs_view(args@) =~= seq![("SearchCaps"@, ""@)]);
        Ok((soap_response(SERVICE_TYPE, "GetSearchCapabilities", &args), 200))
    } else if str_eq(name, "GetSortCapabilities") {
        let args = [("SortCaps", "")];
        assert(pairs_view(args@) =~= seq![("SortCaps"@, ""@)]);
        Ok((soap_response(SERVICE_TYPE, "GetSortCapabilities", &args), 200))
    } else if str_eq(name, "GetSystemUpdateID") {
        let id = decimal_string(library.system_update_id() as u64);
        let args = [("Id", id.as_str())];
        assert(pairs_view(args@) =~= seq![("Id"@, id@)]);
        Ok((soap_response(SERVICE_TYPE, "GetSystemUpdateID", &args), 200))
    } else {
        Err((soap_fault("s:Client", "UPnPError", 401, "Invalid Action"), 401))
    }
}

} // verus!
