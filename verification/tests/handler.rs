use dnsd::handler::{ListenerContext, RefusedHandler};
use dnsd::name::Name;
use dnsd::recursor::reply::{new_header, new_message, one_query};
use dnsd::wire::{Message, CLASS_IN, OPCODE_QUERY, RCODE_NOTIMP, RCODE_REFUSED, TYPE_A};

#[test]
fn refused_stub_mirrors_txid_and_question() {
    let name = Name::from_ascii("example.com.").unwrap().0;
    let mut header = new_header(0x4242, false, OPCODE_QUERY);
    header.recursion_desired = true;
    let req = new_message(header, one_query(&name, TYPE_A, CLASS_IN));
    let bytes = req.to_bytes().unwrap();

    let h = RefusedHandler;
    let resp_bytes = h.handle_bytes(&bytes).unwrap();
    let resp = Message::from_bytes(&resp_bytes).unwrap();
    assert_eq!(resp.header.id, 0x4242);
    assert_eq!(resp.header.rcode, RCODE_REFUSED);
    assert_eq!(resp.queries.len(), 1);
    assert!(resp.header.recursion_desired);
    assert!(!resp.header.recursion_available);
}

#[test]
fn other_operations_are_not_implemented() {
    let name = Name::from_ascii("example.com.").unwrap().0;
    let req = new_message(new_header(7, false, 2), one_query(&name, TYPE_A, CLASS_IN));
    let resp = RefusedHandler.handle_bytes(&req.to_bytes().unwrap()).unwrap();
    let resp = Message::from_bytes(&resp).unwrap();
    assert_eq!(resp.header.rcode, RCODE_NOTIMP);
    assert_eq!(resp.header.opcode, 2);
}

#[test]
fn malformed_queries_get_no_reply() {
    assert!(RefusedHandler.handle_bytes(&[1, 2, 3]).is_none());
}

#[test]
fn contexts_keep_what_they_are_given() {
    let ctx = ListenerContext::new("lan".to_string(), true, Some("tok".to_string()));
    assert_eq!(ctx.name, "lan");
    assert!(ctx.dns64);
    assert_eq!(ctx.doh_auth_token.as_deref(), Some("tok"));
    let d = ListenerContext::default();
    assert_eq!(d.name, "");
    assert!(!d.dns64);
    assert!(d.doh_auth_token.is_none());
}
