//! The UPnP ConnectionManager:1 service of the DLNA server.

use vstd::prelude::*;

use crate::content_directory::result_matches;
use crate::soap::{soap_fault, soap_fault_spec, soap_response, soap_response_spec, SoapAction};
use crate::text::str_eq;
use crate::xml::pairs_view;

verus! {

/// The service type of ConnectionManager:1.
pub const SERVICE_TYPE: &'static str = "urn:schemas-upnp-org:service:ConnectionManager:1";

/// The audio formats the server offers, as DLNA protocol info strings.
pub const SOURCE_PROTOCOLS: &'static str = "http-get:*:audio/mpeg:*,http-get:*:audio/flac:*,http-get:*:audio/x-flac:*,http-get:*:audio/wav:*,http-get:*:audio/x-wav:*,http-get:*:audio/aac:*,http-get:*:audio/mp4:*,http-get:*:audio/x-m4a:*,http-get:*:audio/ogg:*,http-get:*:audio/x-aiff:*,http-get:*:audio/L16:*,http-get:*:audio/x-ms-wma:*";

/// The response to a ConnectionManager action, or the fault and status.
pub open spec fn cm_action_spec(action: Seq<char>) -> Result<(Seq<char>, u16), (Seq<char>, u16)> {
    if action == "GetProtocolInfo"@ {
        Ok(
            (
                soap_response_spec(
                    SERVICE_TYPE@,
                    "GetProtocolInfo"@,
                    seq![("Source"@, SOURCE_PROTOCOLS@), ("Sink"@, ""@)],
                ),
                200,
            ),
        )
    } else if action == "GetCurrentConnectionIDs"@ {
        Ok(
            (
                soap_response_spec(
                    SERVICE_TYPE@,
                    "GetCurrentConnectionIDs"@,
                    seq![("ConnectionIDs"@, "0"@)],
                ),
                200,
            ),
        )
    } else if action == "GetCurrentConnectionInfo"@ {
        Ok(
            (
                soap_response_spec(
                    SERVICE_TYPE@,
                    "GetCurrentConnectionInfo"@,
                    seq![
                        ("RcsID"@, "-1"@),
                        ("AVTransportID"@, "-1"@),
                        ("ProtocolInfo"@, ""@),
                        ("PeerConnectionManager"@, ""@),
                        ("PeerConnectionID"@, "-1"@),
                        ("Direction"@, "Output"@),
                        ("Status"@, "OK"@),
                    ],
                ),
                200,
            ),
        )
    } else {
        Err((soap_fault_spec("s:Client"@, "UPnPError"@, 401, "Invalid Action"@), 401))
    }
}

/// Answer a ConnectionManager action.
pub fn handle_action(action: &SoapAction) -> (r: Result<(String, u16), (String, u16)>)
    ensures
        result_matches(r, cm_action_spec(action.action_name@)),
{
    let name = action.action_name.as_str();
    if str_eq(name, "GetProtocolInfo") {
        let args = [("Source", SOURCE_PROTOCOLS), ("Sink", "")];
        assert(pairs_view(args@) =~= seq![("Source"@, SOURCE_PROTOCOLS@), ("Sink"@, ""@)]);
        Ok((soap_response(SERVICE_TYPE, "GetProtocolInfo", &args), 200))
    } else if str_eq(name, "GetCurrentConnectionIDs") {
        let args = [("ConnectionIDs", "0")];
        assert(pairs_view(args@) =~= seq![("ConnectionIDs"@, "0"@)]);
        Ok((soap_response(SERVICE_TYPE, "GetCurrentConnectionIDs", &args), 200))
    } else if str_eq(name, "GetCurrentConnectionInfo") {
        let args = [
            ("RcsID", "-1"),
            ("AVTransportID", "-1"),
            ("ProtocolInfo", ""),
            ("PeerConnectionManager", ""),
            ("PeerConnectionID", "-1"),
            ("Direction", "Output"),
            ("Status", "OK"),
        ];
        assert(pairs_view(args@) =~= seq![
            ("RcsID"@, "-1"@),
            ("AVTransportID"@, "-1"@),
            ("ProtocolInfo"@, ""@),
            ("PeerConnectionManager"@, ""@),
            ("PeerConnectionID"@, "-1"@),
            ("Direction"@, "Output"@),
            ("Status"@, "OK"@),
        ]);
        Ok((soap_response(SERVICE_TYPE, "GetCurrentConnectionInfo", &args), 200))
    } else {
        Err((soap_fault("s:Client", "UPnPError", 401, "Invalid Action"), 401))
    }
}

} // verus!
