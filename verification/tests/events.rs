use ts3::event::{notify_event_kind, route_event};
use ts3::{
    ClientInfo, ClientLeftView, Decode, DecodeError, DecodeFailure, EventKind, FromText, IntType,
    ParseError, RawResp, ReasonID, TextMessage,
};

#[test]
fn test_client_info_decode() {
    let response = r#"clid=54197 cid=20 client_database_id=37 client_nickname=🥧Gregg🌭 client_type=1\n\rerror id=0 msg=ok\n\r"#;
    let client_info = ClientInfo::decode(response.as_bytes()).unwrap();
    assert_eq!(client_info.client_nickname, "🥧Gregg🌭");
    assert_eq!(client_info.client_type, 1);
    assert_eq!(client_info.client_database_id, 37);
    assert_eq!(client_info.cid, 20);
    assert_eq!(client_info.clid, 54197);
}

#[test]
fn client_info_skips_pairs_without_value_and_keeps_last() {
    let info = ClientInfo::decode(b"cid cid=3 cid=4 other=x").unwrap();
    assert_eq!(info.cid, 4);
    assert_eq!(info.clid, 0);
    assert_eq!(info.client_nickname, "");
}

#[test]
fn client_info_reports_first_bad_value() {
    match ClientInfo::decode(b"client_type=x client_nickname=\\q") {
        Err(e) => assert_eq!(e, DecodeFailure::NotANumber { ty: IntType::U8, text: "x".to_owned() }),
        Ok(_) => panic!("expected an error"),
    }
}

#[test]
fn reason_decode_numbers_variants_in_order() {
    assert_eq!(ReasonID::decode(b"0").unwrap(), ReasonID::SwitchChannel);
    assert_eq!(ReasonID::decode(b"2").unwrap(), ReasonID::Timeout);
    assert_eq!(ReasonID::decode(b"8").unwrap(), ReasonID::ServerShutdown);
    assert_eq!(
        ReasonID::decode(b"x").unwrap_err(),
        DecodeFailure::NotANumber { ty: IntType::U8, text: "x".to_owned() }
    );
}

#[test]
fn reason_from_str_has_its_own_numbering() {
    assert_eq!(ReasonID::from_text("3").unwrap(), ReasonID::Timeout);
    assert_eq!(ReasonID::from_text("10").unwrap(), ReasonID::Edited);
    assert_eq!(ReasonID::from_text("11").unwrap(), ReasonID::ServerShutdown);
    assert_eq!(ReasonID::from_text("2").unwrap_err(), ParseError::InvalidEnum);
    let parsed: ReasonID = "8".parse().unwrap();
    assert_eq!(parsed, ReasonID::ServerLeave);
}

#[test]
fn reason_default_is_switch_channel() {
    assert_eq!(ReasonID::default(), ReasonID::SwitchChannel);
}

#[test]
fn client_left_view_decode() {
    let v = ClientLeftView::decode(
        b"cfid=1 ctid=0 reasonid=8 invokerid=7 invokername=Big\\sBoss invokeruid=abc= reasonmsg=bye bantime=60 clid=5 extra",
    )
    .unwrap();
    assert_eq!(v.cfid, 1);
    assert_eq!(v.ctid, 0);
    assert_eq!(v.reasonid, ReasonID::ServerShutdown);
    assert_eq!(v.invokerid, 7);
    assert_eq!(v.invokername, "Big Boss");
    assert_eq!(v.invokeruid, "abc=");
    assert_eq!(v.reasonmsg, "bye");
    assert_eq!(v.bantime, 60);
    assert_eq!(v.clid, 5);
}

#[test]
fn text_message_decode() {
    let t = TextMessage::decode(b"targetmode=2 msg=hi\\sthere target=4 invokerid=9 invokername=x invokeruid=u=1 other")
        .unwrap();
    assert_eq!(t.targetmode, 2);
    assert_eq!(t.msg, "hi\\sthere");
    assert_eq!(t.target, 4);
    assert_eq!(t.invokerid, 9);
    assert_eq!(t.invokername, "x");
    assert_eq!(t.invokeruid, "u=1");
}

#[test]
fn raw_resp_decode_and_get_field() {
    let raw = RawResp::decode(b"msg=hello\\sworld target=12 flag|msg=second").unwrap();
    assert_eq!(raw.items.len(), 2);
    assert_eq!(raw.items[0][2], ("flag".to_owned(), None));
    let n: usize = ts3::event::get_field(&raw, "target");
    assert_eq!(n, 12);
    let m: String = ts3::event::get_field(&raw, "msg");
    assert_eq!(m, "hello world");
    let missing: usize = ts3::event::get_field(&raw, "nothing");
    assert_eq!(missing, 0);
    let unreadable: usize = ts3::event::get_field(&raw, "msg");
    assert_eq!(unreadable, 0);
    assert_eq!(
        RawResp::decode(b"a=\\").unwrap_err(),
        DecodeFailure::Syntax(DecodeError::UnexpectedEof)
    );
}

#[test]
fn text_message_from_raw_reads_targetmod() {
    let raw = RawResp::decode(b"targetmod=3 targetmode=9 msg=hey target=1 invokerid=2 invokername=n invokeruid=u").unwrap();
    let t = TextMessage::from(raw);
    assert_eq!(t.targetmode, 3);
    assert_eq!(t.msg, "hey");
    assert_eq!(t.target, 1);
    assert_eq!(t.invokerid, 2);
    assert_eq!(t.invokername, "n");
    assert_eq!(t.invokeruid, "u");
}

#[test]
fn route_event_splits_name_and_data() {
    match route_event(b"notifytextmessage targetmode=1 msg=a") {
        Some((kind, rest)) => {
            assert_eq!(kind, EventKind::TextMessage);
            assert_eq!(rest, b"targetmode=1 msg=a".to_vec());
        }
        None => panic!("expected an event"),
    }
    assert_eq!(route_event(b"notifycliententerview x").map(|r| r.0), Some(EventKind::ClientEnterView));
    assert_eq!(route_event(b"notifyclientleftview x").map(|r| r.0), Some(EventKind::ClientLeftView));
    assert!(route_event(b"cliententerview x").is_none());
    assert!(route_event(b"error id=0").is_none());
}

#[test]
fn route_event_without_data_goes_nowhere() {
    assert!(route_event(b"notifytokenused").is_none());
    assert!(route_event(b"").is_none());
}

#[test]
fn notify_event_names() {
    assert_eq!(notify_event_kind("notifycliententerview"), Some(EventKind::ClientEnterView));
    assert_eq!(notify_event_kind("notifytokenused"), Some(EventKind::TokenUsed));
    assert_eq!(notify_event_kind("notifyclientleftview"), None);
    assert_eq!(notify_event_kind("cliententerview"), None);
}
