use nagame::config::Transform;
use nagame::ipc::{
    mode_id, on_connection_event, on_decoded, on_request_line, prepare_socket, read_request_line,
    socket_path, ClientRequest, ConnectionEvent, ConnectionStep, DecodedStep, DisplayMode,
    DisplayOutput, LineStep, RequestLine, ServerEvent, SocketPlace, SocketStep, MAX_REQUEST_BYTES,
};
use nagame::scale::Scale;
use nagame::wayland::{OutputHead, OutputMode};
use std::io::{BufRead, BufReader, Read};

fn mode(width: i32, height: i32, refresh_mhz: i32, preferred: bool) -> OutputMode {
    OutputMode { width, height, refresh_mhz, preferred }
}

fn head(make: &str, model: &str, serial: &str, description: &str) -> OutputHead {
    OutputHead {
        id: 5,
        name: "DP-1".to_string(),
        description: description.to_string(),
        physical_size: None,
        position: None,
        transform: Transform::Normal,
        scale: Scale { bits: 1.0f64.to_bits() },
        enabled: true,
        modes: vec![],
        current_mode: None,
        preferred_mode: None,
        make: make.to_string(),
        model: model.to_string(),
        serial_number: serial.to_string(),
        adaptive_sync: None,
    }
}

#[test]
fn mode_id_keeps_exact_fractional_refresh() {
    let mode = OutputMode {
        width: 1920,
        height: 1080,
        refresh_mhz: 59_940,
        preferred: false,
    };

    assert_eq!(mode_id(&mode), "1920x1080@59940mHz");
}

#[test]
fn mode_identifiers_tell_modes_apart() {
    let modes = [
        mode(1, 11, 1, false),
        mode(11, 1, 1, false),
        mode(1, 1, 11, false),
        mode(-1, 1, 11, false),
        mode(1, 1, -11, false),
    ];
    for (i, a) in modes.iter().enumerate() {
        for (j, b) in modes.iter().enumerate() {
            assert_eq!(mode_id(a) == mode_id(b), i == j);
        }
    }
    assert_eq!(mode_id(&mode(2, 3, 4, true)), mode_id(&mode(2, 3, 4, false)));
    assert_eq!(mode_id(&mode(i32::MIN, 0, i32::MAX, true)), "-2147483648x0@2147483647mHz");
}

#[test]
fn request_lines_are_capped_before_unbounded_allocation() {
    let read = |input: &[u8]| {
        let mut line = String::new();
        let bytes_read = BufReader::new(input)
            .take((MAX_REQUEST_BYTES + 1) as u64)
            .read_line(&mut line)
            .unwrap();
        read_request_line(line, bytes_read)
    };
    let oversized = vec![b'x'; MAX_REQUEST_BYTES + 1];
    assert_eq!(read(&oversized), RequestLine::TooLarge);

    assert!(matches!(
        read(b"{\"command\":\"outputs\"}\n"),
        RequestLine::Complete(_)
    ));
    assert_eq!(read(b""), RequestLine::Empty);
    assert!(matches!(read(&oversized[1..]), RequestLine::Complete(_)));
    let wide = "é".repeat(MAX_REQUEST_BYTES / 2);
    assert!(matches!(read(wide.as_bytes()), RequestLine::Complete(_)));
    assert_eq!(read_request_line(format!("{wide}x"), MAX_REQUEST_BYTES + 1), RequestLine::TooLarge);
}

fn error_of(event: ServerEvent) -> (String, String) {
    match event {
        ServerEvent::Error { code, message } => (code, message),
        other => panic!("{other:?} is no error"),
    }
}

#[test]
fn request_lines_are_decoded_or_refused() {
    assert!(matches!(on_request_line(RequestLine::Empty), LineStep::Close));
    match on_request_line(RequestLine::Complete("line".to_string())) {
        LineStep::Decode(line) => assert_eq!(line, "line"),
        _ => panic!("a complete line is decoded"),
    }
    match on_request_line(RequestLine::TooLarge) {
        LineStep::Refuse(event) => {
            let (code, message) = error_of(event);
            assert_eq!(code, "request_too_large");
            assert_eq!(message, "Display IPC requests are limited to 65536 bytes");
        }
        _ => panic!("a line that is too long is refused"),
    }
    match on_decoded(Ok(ClientRequest::Revert { transaction_id: "t".to_string() })) {
        DecodedStep::Forward(ClientRequest::Revert { transaction_id }) => {
            assert_eq!(transaction_id, "t")
        }
        _ => panic!("a request is forwarded"),
    }
    match on_decoded(Err("expected value".to_string())) {
        DecodedStep::Refuse(event) => {
            let (code, message) = error_of(event);
            assert_eq!((code.as_str(), message.as_str()), ("invalid_request", "expected value"));
        }
        _ => panic!("what is no request is refused"),
    }
}

#[test]
fn connections_end_with_the_client_or_the_daemon() {
    let answer = ServerEvent::RevertCompleted { transaction_id: "t".to_string() };
    assert!(matches!(
        on_connection_event(ConnectionEvent::Response(answer)),
        ConnectionStep::Write(ServerEvent::RevertCompleted { .. })
    ));
    assert!(matches!(
        on_connection_event(ConnectionEvent::ResponsesEnded),
        ConnectionStep::Close
    ));
    assert!(matches!(
        on_connection_event(ConnectionEvent::Read(0)),
        ConnectionStep::ReportDisconnect
    ));
    assert!(matches!(on_connection_event(ConnectionEvent::Read(7)), ConnectionStep::Ignore));
}

#[test]
fn the_socket_lies_in_the_runtime_directory() {
    assert_eq!(
        socket_path(Some("/run/user/1000")),
        Ok("/run/user/1000/nagame/display.sock".to_string())
    );
    assert_eq!(socket_path(None), Err("XDG_RUNTIME_DIR is not set".to_string()));
    assert!(matches!(prepare_socket(SocketPlace::Free, "/s"), SocketStep::Bind));
    assert!(matches!(prepare_socket(SocketPlace::Stale, "/s"), SocketStep::RemoveAndBind));
    assert!(matches!(
        prepare_socket(SocketPlace::Active, "/s"),
        SocketStep::Refuse(message) if message == "another Nagame display socket is already active"
    ));
    assert!(matches!(
        prepare_socket(SocketPlace::Foreign, "/s"),
        SocketStep::Refuse(message) if message == "refusing to replace non-socket path /s"
    ));
}

#[test]
fn outputs_are_named_for_people() {
    let shown = |make: &str, model: &str, serial: &str, description: &str| {
        let output = DisplayOutput::from(&head(make, model, serial, description));
        (output.name, output.identity)
    };
    let pair = |name: &str, identity: &str| (name.to_string(), identity.to_string());
    assert_eq!(shown("LG", "27GL850", "X1", "d"), pair("LG 27GL850", "LG:27GL850:X1"));
    assert_eq!(shown("LG", " ", "", "d"), pair("LG", "DP-1"));
    assert_eq!(shown("", "27GL850", "\t", "d"), pair("27GL850", "DP-1"));
    assert_eq!(shown("", "", "", "A display"), pair("A display", "DP-1"));
    assert_eq!(shown(" ", "", "7", "DP-1"), pair("DP-1", " ::7"));
    assert_eq!(shown("", "", "", "  "), pair("DP-1", "DP-1"));
}

#[test]
fn modes_are_listed_in_order_and_once() {
    let mut output = head("", "", "", "");
    output.modes = vec![
        mode(1920, 1080, 60000, false),
        mode(1280, 1024, 75000, false),
        mode(1920, 1080, 144000, false),
        mode(800, 600, 60000, true),
        mode(1080, 1920, 60000, false),
        mode(1920, 1080, 60000, false),
        mode(800, 600, 60000, false),
        mode(65536, 65536, 1, false),
    ];
    output.current_mode = Some(output.modes[0]);
    output.preferred_mode = Some(output.modes[3]);
    let shown = DisplayOutput::from(&output);
    let ids: Vec<&str> = shown.modes.iter().map(|mode| mode.id.as_str()).collect();
    assert_eq!(
        ids,
        vec![
            "800x600@60000mHz",
            "65536x65536@1mHz",
            "1920x1080@144000mHz",
            "1920x1080@60000mHz",
            "1080x1920@60000mHz",
            "1280x1024@75000mHz",
        ]
    );
    assert!(shown.modes[0].preferred && !shown.modes[1].preferred);
    assert_eq!(shown.current_mode_id.as_deref(), Some("1920x1080@60000mHz"));
    assert_eq!(shown.preferred_mode_id.as_deref(), Some("800x600@60000mHz"));
    assert_eq!((shown.connector.as_str(), shown.enabled), ("DP-1", true));
    let single = DisplayMode::from(&output.modes[2]);
    assert_eq!((single.width, single.height, single.refresh_mhz), (1920, 1080, 144000));
}
