use qwasm2::error::{Q2Error, Q2Result};

#[test]
fn error_drop_is_recoverable() {
    let err = Q2Error::Drop("connection lost".into());
    assert!(err.is_recoverable());
}

#[test]
fn error_fatal_is_not_recoverable() {
    let err = Q2Error::Fatal("out of memory".into());
    assert!(!err.is_recoverable());
}

#[test]
fn error_quit_is_not_recoverable() {
    let err = Q2Error::Quit;
    assert!(!err.is_recoverable());
}

#[test]
fn error_io_is_not_recoverable() {
    let err = Q2Error::Io(std::io::Error::new(std::io::ErrorKind::NotFound, "file not found"));
    assert!(!err.is_recoverable());
}

#[test]
fn error_display() {
    let err = Q2Error::Drop("test message".into());
    assert_eq!(err.display_text(), "drop: test message");
}

#[test]
fn error_display_other_kinds() {
    assert_eq!(Q2Error::Fatal("x".into()).display_text(), "fatal: x");
    assert_eq!(Q2Error::Quit.display_text(), "quit");
    assert_eq!(Q2Error::Net("down".into()).display_text(), "net: down");
    let io = Q2Error::Io(std::io::Error::new(std::io::ErrorKind::NotFound, "gone"));
    assert_eq!(io.display_text(), "io: gone");
}

#[test]
fn io_error_converts() {
    let io_err = std::io::Error::new(std::io::ErrorKind::NotFound, "gone");
    let q2_err: Q2Error = io_err.into();
    assert!(matches!(q2_err, Q2Error::Io(_)));
}

#[test]
fn q2result_type_works() {
    fn might_fail(fail: bool) -> Q2Result<i32> {
        if fail {
            Err(Q2Error::Drop("nope".into()))
        } else {
            Ok(42)
        }
    }
    assert_eq!(might_fail(false).unwrap(), 42);
    assert!(might_fail(true).is_err());
}

#[test]
fn q2_drop_macro() {
    fn test_drop() -> Q2Result<()> {
        return Err(Q2Error::Drop(format!("connection {} lost", "test")));
    }
    let err = test_drop().unwrap_err();
    assert!(matches!(err, Q2Error::Drop(ref msg) if msg == "connection test lost"));
}

#[test]
fn q2_fatal_macro() {
    fn test_fatal() -> Q2Result<()> {
        return Err(Q2Error::Fatal(format!("out of memory: {} bytes", 1024)));
    }
    let err = test_fatal().unwrap_err();
    assert!(matches!(err, Q2Error::Fatal(ref msg) if msg == "out of memory: 1024 bytes"));
}

#[test]
fn frame_loop_error_recovery() {
    let mut recovered = false;
    for _ in 0..3 {
        let result: Q2Result<()> = Err(Q2Error::Drop("frame error".into()));
        match result {
            Ok(()) => {}
            Err(ref e) if e.is_recoverable() => {
                recovered = true;
                continue;
            }
            Err(e) => panic!("fatal: {}", e.display_text()),
        }
    }
    assert!(recovered);
}
