use loom::rt::trace::TraceRef;

#[test]
fn trace_ref_text_is_type_and_index() {
    assert_eq!(TraceRef::new("Mutex", 12).text(), "Mutex::12");
    assert_eq!(TraceRef::new("Atomic", 0).text(), "Atomic::0");
    assert_eq!(TraceRef::new("Arc", 9).text(), "Arc::9");
    assert_eq!(TraceRef::new("Notify", 1507).text(), "Notify::1507");
}
