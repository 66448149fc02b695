use game_of_life::shader::{build_failed, log_bytes, ShaderProgram};

#[test]
fn status_that_is_not_positive_is_a_failure() {
    assert!(build_failed(0));
    assert!(build_failed(-1));
    assert!(build_failed(i32::MIN));
    assert!(!build_failed(1));
    assert!(!build_failed(i32::MAX));
}

#[test]
fn log_bytes_keep_the_bits() {
    assert_eq!(log_bytes(&Vec::new()), Vec::<u8>::new());
    assert_eq!(log_bytes(&vec![0, 1, 65, 127]), vec![0, 1, 65, 127]);
    assert_eq!(log_bytes(&vec![-1, -128, -61]), vec![255, 128, 195]);
}

#[test]
fn shader_program_holds_its_handle() {
    let program: ShaderProgram = ShaderProgram { id: 7 };
    assert_eq!(program.id, 7);
    assert_eq!(program, ShaderProgram { id: 7 });
}
