//! Talking to WiiM devices: SOAP calls and replies, HTTPS API commands,
//! discovery, and device schemas.

use airwave::scpd::{
    description_url, direction_of, parse_actions, parse_device_schema, scpd_fetch_url, Direction,
    SchemaError,
};
use airwave::soap_client::{
    build_soap_envelope, parse_soap_fault, parse_soap_response, reply_action, retry_delay_ms,
    soap_action_header, with_instance_id, ReplyAction, SoapError,
};
use airwave::ssdp::{header_value, parse_response};
use airwave::wiim_api::{
    kick_steps, slave_device_ids, SlaveInfo, SlaveListResponse,
    check_ok, check_status, command_reply, command_url, HttpsApiError, control_device_info, device_id_from_udn, flag_value,
    https_base_url, is_unknown_command, join_group_command, msearch_request, parse_description,
    position_info, preset_names, probe_reply_ok, removed_ids, reply_ok, slave_kickout_command,
    status_ex, switch_source_command, transport_actions, DescriptionError,
    address_from_parts, discovery_changes, new_ids, status_from_reply,
};
use airwave::urls::UrlParts;

#[test]
fn envelopes_carry_the_action_and_its_arguments() {
    let s = build_soap_envelope("urn:x", "GetVolume", &[("InstanceID", "0"), ("Channel", "Master")]);
    assert_eq!(
        s,
        "<?xml version=\"1.0\" encoding=\"utf-8\"?><s:Envelope xmlns:s=\"http://schemas.xmlsoap.org/soap/envelope/\" \
s:encodingStyle=\"http://schemas.xmlsoap.org/soap/encoding/\"><s:Body><u:GetVolume xmlns:u=\"urn:x\">\
<InstanceID>0</InstanceID><Channel>Master</Channel></u:GetVolume></s:Body></s:Envelope>"
    );
    let s = build_soap_envelope("urn:x", "SetName", &[("Name", "A<B & \"C\"")]);
    assert!(s.contains("<Name>A&lt;B &amp; &quot;C&quot;</Name>"));
    assert_eq!(soap_action_header("urn:x", "Play"), "\"urn:x#Play\"");
    assert_eq!(with_instance_id(&[("Speed", "1")]), vec![("InstanceID", "0"), ("Speed", "1")]);
}

#[test]
fn responses_give_their_values() {
    let xml = "<s:Envelope xmlns:s=\"http://schemas.xmlsoap.org/soap/envelope/\"><s:Body>\
<u:GetPositionInfoResponse xmlns:u=\"urn:x\"><Track>3</Track><TrackDuration>0:03:10</TrackDuration>\
<RelTime>0:00:05</RelTime><TrackURI></TrackURI></u:GetPositionInfoResponse></s:Body></s:Envelope>";
    let r = parse_soap_response(xml, "GetPositionInfo").unwrap();
    let p = position_info(&r.values);
    assert_eq!(p.track, 3);
    assert_eq!(p.track_duration, "0:03:10");
    assert_eq!(p.rel_time, "0:00:05");
    assert_eq!(p.track_uri, "");
    assert_eq!(p.abs_time, "");
    match parse_soap_response(xml, "GetVolume") {
        Err(SoapError::Xml(m)) => assert_eq!(m, "No <GetVolumeResponse> in response"),
        _ => panic!("expected an XML error"),
    }
    assert!(matches!(parse_soap_response("<broken", "X"), Err(SoapError::Xml(_))));
}

#[test]
fn faults_give_their_code_and_description() {
    let xml = "<s:Envelope xmlns:s=\"http://schemas.xmlsoap.org/soap/envelope/\"><s:Body><s:Fault>\
<faultcode>s:Client</faultcode><faultstring>UPnPError</faultstring><detail><UPnPError>\
<errorCode>701</errorCode><errorDescription>No such</errorDescription></UPnPError></detail>\
</s:Fault></s:Body></s:Envelope>";
    match parse_soap_fault(xml) {
        SoapError::Fault { code, description } => {
            assert_eq!(code, "701");
            assert_eq!(description, "No such");
        }
        other => panic!("expected a fault, got {other:?}"),
    }
    match parse_soap_fault("not xml") {
        SoapError::Xml(m) => assert_eq!(m, "Failed to parse SOAP fault: not xml"),
        other => panic!("expected an XML error, got {other:?}"),
    }
}

#[test]
fn retries_back_off_and_faults_are_final() {
    assert_eq!(reply_action(500), ReplyAction::ReadFault);
    assert_eq!(reply_action(200), ReplyAction::ReadResponse);
    assert_eq!(reply_action(204), ReplyAction::ReadResponse);
    assert_eq!(reply_action(404), ReplyAction::Retry);
    assert_eq!(retry_delay_ms(0), 0);
    assert_eq!(retry_delay_ms(1), 300);
    assert_eq!(retry_delay_ms(2), 600);
    assert_eq!(retry_delay_ms(3), 1200);
}

#[test]
fn control_info_reads_mute_and_volume() {
    let xml = "<s:Envelope xmlns:s=\"http://schemas.xmlsoap.org/soap/envelope/\"><s:Body>\
<u:GetControlDeviceInfoResponse xmlns:u=\"urn:x\"><CurrentVolume>42</CurrentVolume><CurrentMute>true</CurrentMute>\
<Ssid>Home</Ssid><CurrentChannel>x</CurrentChannel></u:GetControlDeviceInfoResponse></s:Body></s:Envelope>";
    let r = parse_soap_response(xml, "GetControlDeviceInfo").unwrap();
    let info = control_device_info(r.values);
    assert_eq!(info.volume, 42);
    assert!(info.muted);
    assert_eq!(info.ssid, "Home");
    assert_eq!(info.router, "");
}

#[test]
fn https_commands_are_spelled_exactly() {
    assert_eq!(https_base_url("10.0.0.9"), "https://10.0.0.9");
    assert_eq!(
        command_url("https://10.0.0.9", "getStatusEx"),
        "https://10.0.0.9/httpapi.asp?command=getStatusEx"
    );
    assert_eq!(join_group_command("1.2.3.4"), "ConnectMasterAp:JoinGroupMaster:eth1.2.3.4:wifi1.2.3.4");
    assert_eq!(slave_kickout_command("1.2.3.5"), "multiroom:SlaveKickout:1.2.3.5");
    assert_eq!(switch_source_command("line-in"), "setPlayerCmd:switchmode:line-in");
    assert_eq!(flag_value(true), "1");
    assert_eq!(flag_value(false), "0");
    assert!(is_unknown_command("unknown command"));
    assert!(!is_unknown_command("OK"));
    assert!(reply_ok(" OK\n"));
    assert!(!reply_ok("FAIL"));
    assert!(probe_reply_ok("{\"uuid\":\"x\"}"));
    assert!(!probe_reply_ok("{}"));
}

#[test]
fn status_replies_are_checked() {
    assert_eq!(check_status("{\"status\":\"OK\"}"), Ok(()));
    assert_eq!(check_status("{\"status\":\"Failed\"}"), Err(HttpsApiError::ApiFailed("Failed".to_string())));
    assert_eq!(check_status("OK\r\n"), Ok(()));
    assert_eq!(check_status("nope"), Err(HttpsApiError::ApiFailed("nope".to_string())));
    assert_eq!(check_ok(" OK ".to_string()), Ok(()));
    assert_eq!(check_ok("busy".to_string()), Err(HttpsApiError::ApiFailed("busy".to_string())));
    assert_eq!(command_reply("fine".to_string()), Ok("fine".to_string()));
    assert_eq!(
        command_reply("unknown command".to_string()),
        Err(HttpsApiError::ApiFailed("unknown command".to_string()))
    );
}

#[test]
fn lists_are_split_and_trimmed() {
    assert_eq!(preset_names("Flat, Rock ,Jazz"), vec!["Flat", "Rock", "Jazz"]);
    assert_eq!(transport_actions("Play, ,Stop,"), vec!["Play", "Stop"]);
    let s = status_ex(None, Some("wifi".to_string()), Some(-50), None);
    assert_eq!(s.source.as_deref(), Some("wifi"));
    let s = status_ex(Some("10".to_string()), Some("wifi".to_string()), None, None);
    assert_eq!(s.source.as_deref(), Some("10"));
}

#[test]
fn discovery_reads_locations_and_ids() {
    let text = "HTTP/1.1 200 OK\r\nCACHE-CONTROL: max-age=1800\r\nlocation: http://10.0.0.5:49152/description.xml\r\nUSN: uuid:abc::urn:x\r\n\r\n";
    let d = parse_response(text).unwrap();
    assert_eq!(d.location, "http://10.0.0.5:49152/description.xml");
    assert_eq!(d.usn, "uuid:abc::urn:x");
    assert!(parse_response("HTTP/1.1 200 OK\r\nST: x\r\n\r\n").is_none());
    assert_eq!(header_value("A: 1\r\nST:  upnp:rootdevice \r\n", "ST:"), Some("upnp:rootdevice".to_string()));
    assert_eq!(device_id_from_udn("uuid:1234-abcd"), "1234-abcd");
    assert!(msearch_request().starts_with("M-SEARCH * HTTP/1.1\r\n"));
    assert!(msearch_request().contains("ST: urn:schemas-upnp-org:device:MediaRenderer:1\r\n"));
    let gone = removed_ids(
        &vec!["a".to_string(), "b".to_string(), "c".to_string()],
        &vec!["b".to_string()],
    );
    assert_eq!(gone, vec!["a".to_string(), "c".to_string()]);
}

const DESCRIPTION: &str = "<?xml version=\"1.0\"?>\
<root xmlns=\"urn:schemas-upnp-org:device-1-0\"><device>\
<friendlyName> Living Room </friendlyName><modelName>WiiM Mini</modelName><UDN>uuid:dev-1</UDN>\
<serviceList><service><serviceType>urn:schemas-upnp-org:service:AVTransport:1</serviceType>\
<serviceId>urn:upnp-org:serviceId:AVTransport</serviceId><SCPDURL>/upnp/avt.xml</SCPDURL>\
<controlURL>/upnp/control/avt</controlURL><eventSubURL>/upnp/event/avt</eventSubURL></service>\
</serviceList></device></root>";

#[test]
fn descriptions_name_the_device_and_its_address() {
    let d = parse_description(DESCRIPTION, "http://10.0.0.5:49152/description.xml").unwrap();
    assert_eq!(d.udn, "uuid:dev-1");
    assert_eq!(d.friendly_name, "Living Room");
    assert_eq!(d.model_name.as_deref(), Some("WiiM Mini"));
    assert_eq!(d.model_number, None);
    assert_eq!(d.ip, "10.0.0.5");
    assert_eq!(d.port, 49152);
    let d = parse_description(DESCRIPTION, "http://10.0.0.5/description.xml").unwrap();
    assert_eq!(d.port, 80);
    assert!(matches!(parse_description("<x", "http://a/"), Err(DescriptionError::Xml(_))));
    assert_eq!(
        parse_description("<root/>", "http://a/").unwrap_err(),
        DescriptionError::NoDevice
    );
    assert_eq!(
        parse_description("<root><device><friendlyName>x</friendlyName></device></root>", "http://a/")
            .unwrap_err(),
        DescriptionError::NoUdn
    );
    assert_eq!(parse_description(DESCRIPTION, "not a url").unwrap_err(), DescriptionError::BadLocation);
    let d = parse_description("<root><device><UDN>u</UDN></device></root>", "http://h/").unwrap();
    assert_eq!(d.friendly_name, "Unknown");
}

#[test]
fn device_schemas_list_services_and_actions() {
    let s = parse_device_schema(DESCRIPTION).unwrap();
    assert_eq!(s.friendly_name, "Living Room");
    assert_eq!(s.udn, "uuid:dev-1");
    assert_eq!(s.model_number, "");
    assert_eq!(s.services.len(), 1);
    assert_eq!(s.services[0].control_url, "/upnp/control/avt");
    assert_eq!(s.services[0].scpd_url, "/upnp/avt.xml");
    assert!(s.services[0].actions.is_empty());
    assert_eq!(
        parse_device_schema("<root xmlns=\"other\"><device/></root>").unwrap_err(),
        SchemaError::NoDevice
    );
    assert_eq!(description_url("http://h:1"), "http://h:1/description.xml");
    assert_eq!(scpd_fetch_url("http://h:1", "/a.xml"), Some("http://h:1/a.xml".to_string()));
    assert_eq!(scpd_fetch_url("http://h:1", ""), None);

    let scpd = "<scpd xmlns=\"urn:schemas-upnp-org:service-1-0\"><actionList><action><name>Play</name>\
<argumentList><argument><name>InstanceID</name><direction>in</direction>\
<relatedStateVariable>A_ARG_TYPE_InstanceID</relatedStateVariable></argument>\
<argument><name>Out</name><direction>out</direction></argument></argumentList></action>\
<action><name>Stop</name></action></actionList></scpd>";
    let actions = parse_actions(scpd).unwrap();
    assert_eq!(actions.len(), 2);
    assert_eq!(actions[0].name, "Play");
    assert_eq!(actions[0].arguments.len(), 2);
    assert_eq!(actions[0].arguments[0].direction, Direction::In);
    assert_eq!(actions[0].arguments[0].related_state_variable, "A_ARG_TYPE_InstanceID");
    assert_eq!(actions[0].arguments[1].direction, Direction::Out);
    assert_eq!(actions[0].arguments[1].related_state_variable, "");
    assert!(actions[1].arguments.is_empty());
    assert_eq!(direction_of("in"), Direction::In);
    assert_eq!(direction_of("IN"), Direction::Out);
    assert!(parse_actions("<a").is_err());
}

#[test]
fn dissolving_kicks_each_listed_follower() {
    let list = SlaveListResponse {
        slaves: 2,
        slave_list: vec![
            SlaveInfo { name: "A".to_string(), uuid: "uuid:aa-1".to_string(), ip: "10.0.0.2".to_string() },
            SlaveInfo { name: "B".to_string(), uuid: "bb-2".to_string(), ip: "10.0.0.3".to_string() },
        ],
    };
    let steps = kick_steps(&list);
    assert_eq!(steps.len(), 2);
    assert_eq!(steps[0].command, "multiroom:SlaveKickout:10.0.0.2");
    assert_eq!(steps[0].device_id, "aa-1");
    assert_eq!(steps[1].device_id, "bb-2");
    assert_eq!(slave_device_ids(&list), vec!["aa-1".to_string(), "bb-2".to_string()]);
}

#[test]
fn status_is_judged_by_the_json_status() {
    assert_eq!(status_from_reply("{}", Some("OK".to_string())), Ok(()));
    assert_eq!(
        status_from_reply("{}", Some("busy".to_string())),
        Err(HttpsApiError::ApiFailed("busy".to_string()))
    );
    assert_eq!(status_from_reply(" OK ", None), Ok(()));
    assert_eq!(status_from_reply("no", None), Err(HttpsApiError::ApiFailed("no".to_string())));
}

#[test]
fn address_comes_from_the_location_parts() {
    let p = |host: Option<&str>, port: Option<u16>| UrlParts {
        scheme: "http".to_string(),
        host: host.map(|h| h.to_string()),
        port,
        path: "/d.xml".to_string(),
        query: None,
        fragment: None,
        username: String::new(),
        password: None,
    };
    assert_eq!(address_from_parts(Some(p(Some("10.0.0.9"), Some(1400)))), Ok(("10.0.0.9".to_string(), 1400)));
    assert_eq!(address_from_parts(Some(p(Some("10.0.0.9"), None))), Ok(("10.0.0.9".to_string(), 80)));
    assert_eq!(address_from_parts(Some(p(None, None))), Err(DescriptionError::NoHost));
    assert_eq!(address_from_parts(None), Err(DescriptionError::BadLocation));
}

#[test]
fn discovery_registers_only_new_devices() {
    let current = vec!["a".to_string(), "b".to_string(), "a".to_string(), "c".to_string()];
    let registered = vec!["b".to_string()];
    assert_eq!(new_ids(&current, &registered), vec!["a".to_string(), "c".to_string()]);
    let known = vec!["b".to_string(), "x".to_string()];
    assert_eq!(removed_ids(&known, &current), vec!["x".to_string()]);
}

#[test]
fn discovery_round_adds_new_and_drops_vanished_devices() {
    let known = vec!["a".to_string(), "b".to_string(), "x".to_string()];
    let current = vec!["b".to_string(), "c".to_string(), "c".to_string()];
    let registered = vec!["a".to_string(), "b".to_string(), "x".to_string()];
    let (added, removed) = discovery_changes(&known, &current, &registered);
    assert_eq!(added, vec!["c".to_string()]);
    assert_eq!(removed, vec!["a".to_string(), "x".to_string()]);
}
