use intel_hex_expand::com::ObjectLedger;
use intel_hex_expand::com::{
    can_unload, class_object_request, count_after_add_ref, count_after_release,
    create_instance_request, query_factory, query_script, ClassRequest, InstanceRequest, Query,
    Status, CLSID_WINMERGESCRIPT, IID_ICLASSFACTORY, IID_IDISPATCH, IID_IUNKNOWN,
    IID_IWINMERGESCRIPT,
};
use intel_hex_expand::plugin::{
    pack_reply, plugin_description, plugin_event, plugin_extended_properties,
    plugin_file_filters, plugin_is_automatic, settings_dialog_reply, unpack_reply, FileReply,
};

#[test]
fn plugin_reports_unpack_event_filters_and_menu_caption() {
    assert_eq!(plugin_event(), "FILE_PACK_UNPACK");
    assert_eq!(plugin_file_filters(), "\\.hex$;\\.ihx$");
    assert_eq!(plugin_extended_properties(), "MenuCaption=Expand Intel HEX");
    assert_eq!(plugin_description(), "Intel HEX expander (x64, unpack only)");
    assert!(plugin_is_automatic());
}

#[test]
fn unpack_reply_follows_the_expansion() {
    assert_eq!(unpack_reply(true), FileReply { changed: true, success: true, subcode: 0 });
    assert_eq!(unpack_reply(false), FileReply { changed: false, success: false, subcode: 0 });
}

#[test]
fn packing_and_settings_are_not_supported() {
    let (reply, status) = pack_reply();
    assert!(!reply.changed && !reply.success);
    assert_eq!(status, Status::Success);
    assert_eq!(settings_dialog_reply(), (false, Status::Fail));
}

#[test]
fn plugin_object_hands_out_its_interfaces_only() {
    assert_eq!(query_script(Some(IID_IWINMERGESCRIPT), true), Query::Granted);
    assert_eq!(query_script(Some(IID_IDISPATCH), true), Query::Granted);
    assert_eq!(query_script(Some(IID_IUNKNOWN), true), Query::Granted);
    assert_eq!(query_script(Some(IID_ICLASSFACTORY), true), Query::Unsupported);
    assert_eq!(query_script(None, true), Query::NullPointer);
    assert_eq!(query_script(Some(IID_IUNKNOWN), false), Query::NullPointer);
}

#[test]
fn class_factory_hands_out_its_interfaces_only() {
    assert_eq!(query_factory(Some(IID_ICLASSFACTORY), true), Query::Granted);
    assert_eq!(query_factory(Some(IID_IUNKNOWN), true), Query::Granted);
    assert_eq!(query_factory(Some(IID_IWINMERGESCRIPT), true), Query::Unsupported);
    assert_eq!(query_factory(None, false), Query::NullPointer);
}

#[test]
fn class_object_requests() {
    assert_eq!(class_object_request(Some(CLSID_WINMERGESCRIPT), true, true), ClassRequest::MakeFactory);
    assert_eq!(class_object_request(Some(IID_IUNKNOWN), true, true), ClassRequest::UnknownClass);
    assert_eq!(class_object_request(None, true, true), ClassRequest::NullPointer);
    assert_eq!(class_object_request(Some(CLSID_WINMERGESCRIPT), false, true), ClassRequest::NullPointer);
    assert_eq!(class_object_request(Some(CLSID_WINMERGESCRIPT), true, false), ClassRequest::NullPointer);
}

#[test]
fn instance_requests() {
    assert_eq!(create_instance_request(true, true), InstanceRequest::NoAggregation);
    assert_eq!(create_instance_request(false, false), InstanceRequest::NullPointer);
    assert_eq!(create_instance_request(false, true), InstanceRequest::MakeObject);
}

#[test]
fn reference_counts_and_unloading() {
    // An object made with one reference, granted once and released twice.
    let granted = count_after_add_ref(1);
    assert_eq!(granted, 2);
    assert_eq!(count_after_release(granted), (1, false));
    assert_eq!(count_after_release(1), (0, true));
    assert_eq!(can_unload(0), Status::Success);
    assert_eq!(can_unload(2), Status::SuccessFalse);
}

#[test]
fn ledger_allows_unloading_once_every_object_is_destroyed() {
    let mut ledger = ObjectLedger::new();
    assert_eq!(ledger.can_unload(), Status::Success);
    ledger.object_made();
    ledger.object_made();
    assert_eq!(ledger.live_objects(), 2);
    assert_eq!(ledger.can_unload(), Status::SuccessFalse);
    ledger.object_destroyed();
    assert_eq!(ledger.can_unload(), Status::SuccessFalse);
    ledger.object_destroyed();
    assert_eq!(ledger.live_objects(), 0);
    assert_eq!(ledger.can_unload(), Status::Success);
}
