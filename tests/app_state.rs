use serial_monitor::app_state::SerialApp;
use std::sync::mpsc;

#[test]
fn app_new_is_empty() {
    let (_tx, rx) = mpsc::channel::<String>();
    let app = SerialApp::new(rx);
    assert_eq!(app.log.as_text(), "");
    assert_eq!(app.file_log.as_text(), "");
    assert_eq!(app.marker, "");
}

#[test]
fn channel_keeps_order_then_empty() {
    let (tx, rx) = mpsc::channel::<String>();
    let app = SerialApp::new(rx);
    tx.send("A".to_string()).unwrap();
    tx.send("B".to_string()).unwrap();
    tx.send("C".to_string()).unwrap();
    assert_eq!(app.try_receive(), Some("A".to_string()));
    assert_eq!(app.try_receive(), Some("B".to_string()));
    assert_eq!(app.try_receive(), Some("C".to_string()));
    assert_eq!(app.try_receive(), None);
}

#[test]
fn channel_empty_after_sender_gone() {
    let (tx, rx) = mpsc::channel::<String>();
    let app = SerialApp::new(rx);
    tx.send("last".to_string()).unwrap();
    drop(tx);
    assert_eq!(app.try_receive(), Some("last".to_string()));
    assert_eq!(app.try_receive(), None);
}

#[test]
fn app_drains_and_sanitizes_serial_chunks() {
    let (tx, rx) = mpsc::channel::<String>();
    let mut app = SerialApp::new(rx);
    tx.send("boot \x1b[32mOK".to_string()).unwrap();
    tx.send("\x1b[0m\n".to_string()).unwrap();
    while let Some(chunk) = app.try_receive() {
        app.ingest_serial(&chunk);
    }
    assert_eq!(app.log.as_text(), "boot OK\n");
    assert_eq!(app.file_log.as_text(), "");
}

#[test]
fn app_file_content_goes_to_file_log() {
    let (_tx, rx) = mpsc::channel::<String>();
    let mut app = SerialApp::new(rx);
    app.process_file_content("line \x1b[1mone\x1b[0m\n".to_string());
    app.process_file_content("line two\n".to_string());
    assert_eq!(app.file_log.as_text(), "line one\nline two\n");
    assert_eq!(app.log.as_text(), "");
}

#[test]
fn app_clear_empties_both_logs_keeps_marker() {
    let (_tx, rx) = mpsc::channel::<String>();
    let mut app = SerialApp::new(rx);
    app.set_marker("DEBUG");
    app.ingest_serial("serial");
    app.process_file_content("file".to_string());
    app.clear();
    assert_eq!(app.log.as_text(), "");
    assert_eq!(app.file_log.as_text(), "");
    assert_eq!(app.marker, "DEBUG");
}

#[test]
fn app_ingests_chunk_batch_in_order() {
    let (_tx, rx) = mpsc::channel::<String>();
    let mut app = SerialApp::new(rx);
    app.ingest_serial("start|");
    app.ingest_chunks(vec!["A\x1b[1m".to_string(), "B".to_string(), "\x1b[0mC".to_string()]);
    assert_eq!(app.log.as_text(), "start|ABC");
    app.ingest_chunks(Vec::new());
    assert_eq!(app.log.as_text(), "start|ABC");
    assert_eq!(app.file_log.as_text(), "");
}
