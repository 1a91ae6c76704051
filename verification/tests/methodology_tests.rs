use audit_trail::methodology::MethodologyLibrary;

#[test]
fn methodology_library_initializes() {
    let mut lib = MethodologyLibrary::new();
    assert!(!lib.initialized);
    lib.initialize();
    assert!(lib.initialized);
}
