use serial_monitor::buffer::LogBuffer;

#[test]
fn buffer_starts_empty() {
    assert_eq!(LogBuffer::new().as_text(), "");
}

#[test]
fn buffer_appends_in_order() {
    let mut b = LogBuffer::new();
    b.append("one ");
    b.append("");
    b.append("two ");
    b.append("three");
    assert_eq!(b.as_text(), "one two three");
}

#[test]
fn buffer_clear_resets() {
    let mut b = LogBuffer::new();
    b.append("content that goes away");
    b.clear();
    assert_eq!(b.as_text(), "");
    b.append("again");
    assert_eq!(b.as_text(), "again");
}
