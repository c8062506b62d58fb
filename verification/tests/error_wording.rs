use block_benchie::error::RunError;

#[test]
fn errors_of_the_system_are_quoted() {
    let open = RunError::Open { device: "/dev/sda".to_string(), cause: "denied".to_string() };
    assert_eq!(open.message(), "failed to open /dev/sda read-only with O_DIRECT: denied");
    let size = RunError::Size { device: "/dev/sda".to_string(), cause: "bad".to_string() };
    assert_eq!(size.message(), "failed to determine size for /dev/sda: bad");
    let read = RunError::Read { offset: 4096, cause: "I/O error".to_string() };
    assert_eq!(read.message(), "read failed at offset 4096: I/O error");
    let write = RunError::Write { path: "out.svg".to_string(), cause: "full".to_string() };
    assert_eq!(write.message(), "failed to write out.svg: full");
}
